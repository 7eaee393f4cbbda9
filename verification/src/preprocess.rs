//! Turns generated WGSL with Bevy preprocessor directives into plain WGSL that naga can parse:
//! `#ifdef`/`#else`/`#endif` resolved against a set of defines, `#import` lines dropped, the
//! `module::item` paths that codegen emits rewritten to the stub's `stub_item` names, and the stub
//! of the imported declarations put in front.

use vstd::prelude::*;
use crate::text::{
    chars_of, leading_ws_len, line_end, lines, matches_at, newline_index, push_all, replace_all, replace_chars,
    starts_with, string_of, strip_cr, trim, trim_start, trimmed_end_len,
};

verus! {

/// Preprocessor state between lines: the enclosing blocks' activity, whether the current line is
/// kept, and the output so far.
pub type PpState = (Seq<bool>, bool, Seq<char>);

/// Whether `name` is one of `defines`.
pub open spec fn is_defined(defines: Seq<Seq<char>>, name: Seq<char>) -> bool {
    exists|i: int| 0 <= i < defines.len() && defines[i] == name
}

/// The effect of one source line on the preprocessor.
pub open spec fn pp_step(st: PpState, line: Seq<char>, defines: Seq<Seq<char>>) -> PpState {
    let (stack, active, out) = st;
    let t = trim_start(line);
    if starts_with(t, "#ifdef"@) {
        let name = trim(t.skip("#ifdef"@.len() as int));
        (stack.push(active), active && is_defined(defines, name), out)
    } else if starts_with(t, "#else"@) {
        let outer = if stack.len() > 0 {
            stack.last()
        } else {
            true
        };
        (stack, outer && !active, out)
    } else if starts_with(t, "#endif"@) {
        if stack.len() > 0 {
            (stack.drop_last(), stack.last(), out)
        } else {
            (stack, true, out)
        }
    } else if !active || starts_with(t, "#import"@) {
        st
    } else {
        (stack, active, out + line + seq!['\n'])
    }
}

/// The preprocessor run over `ls` from state `st`.
pub open spec fn pp_run(ls: Seq<Seq<char>>, defines: Seq<Seq<char>>, st: PpState) -> PpState
    decreases ls.len(),
{
    if ls.len() == 0 {
        st
    } else {
        pp_run(ls.drop_first(), defines, pp_step(st, ls[0], defines))
    }
}

/// The lines of `source` that survive the directives, each followed by `'\n'`.
pub open spec fn kept_lines(source: Seq<char>, defines: Seq<Seq<char>>) -> Seq<char> {
    pp_run(lines(source), defines, (seq![], true, seq![])).2
}

/// The import paths rewritten to stub names, longest prefix first.
pub open spec fn rewrite_paths(s: Seq<char>) -> Seq<char> {
    replace_all(
        replace_all(
            replace_all(s, "bevy_pbr::prepass_utils::"@, "stub_"@),
            "pbr_functions::"@,
            "stub_"@,
        ),
        "mesh_functions::"@,
        "stub_"@,
    )
}

/// What `preprocess` returns: the stub, a newline, then the rewritten surviving lines.
pub open spec fn preprocessed(
    source: Seq<char>,
    stub: Seq<char>,
    defines: Seq<Seq<char>>,
) -> Seq<char> {
    stub + seq!['\n'] + rewrite_paths(kept_lines(source, defines))
}

/// The views of a list of string slices.
pub open spec fn str_views(v: Seq<&str>) -> Seq<Seq<char>> {
    v.map_values(|d: &str| d@)
}

/// Whether the two character slices are equal.
pub fn chars_eq(a: &[char], b: &[char]) -> (r: bool)
    ensures
        r == (a@ == b@),
{
    if a.len() != b.len() {
        return false;
    }
    let mut i: usize = 0;
    while i < a.len()
        invariant
            i <= a@.len(),
            a@.len() == b@.len(),
            forall|j: int| 0 <= j < i ==> a@[j] == b@[j],
        decreases a@.len() - i,
    {
        if a[i] != b[i] {
            return false;
        }
        i = i + 1;
    }
    assert(a@ =~= b@);
    true
}

fn defined(defines: &Vec<Vec<char>>, name: &[char]) -> (r: bool)
    ensures
        r == is_defined(defines@.map_values(|d: Vec<char>| d@), name@),
{
    let ghost dv = defines@.map_values(|d: Vec<char>| d@);
    let mut i: usize = 0;
    while i < defines.len()
        invariant
            i <= defines@.len(),
            dv == defines@.map_values(|d: Vec<char>| d@),
            forall|j: int| 0 <= j < i ==> dv[j] != name@,
        decreases defines@.len() - i,
    {
        if chars_eq(defines[i].as_slice(), name) {
            assert(dv[i as int] == name@);
            return true;
        }
        i = i + 1;
    }
    false
}

fn step(
    line: &[char],
    defines: &Vec<Vec<char>>,
    stack: &mut Vec<bool>,
    active: &mut bool,
    out: &mut Vec<char>,
    ifdef: &[char],
    else_: &[char],
    endif: &[char],
    import: &[char],
)
    requires
        ifdef@ == "#ifdef"@,
        else_@ == "#else"@,
        endif@ == "#endif"@,
        import@ == "#import"@,
    ensures
        (final(stack)@, *final(active), final(out)@) == pp_step(
            (old(stack)@, *old(active), old(out)@),
            line@,
            defines@.map_values(|d: Vec<char>| d@),
        ),
{
    let k = leading_ws_len(line);
    let t = &line[k..line.len()];
    assert(t@ == trim_start(line@));
    assert(t@.skip(0) =~= t@);
    if matches_at(t, 0, ifdef) {
        let rest = &t[ifdef.len()..t.len()];
        let a = leading_ws_len(rest);
        let name_full = &rest[a..rest.len()];
        let b = trimmed_end_len(name_full);
        let name = &name_full[0..b];
        assert(name@ == trim(t@.skip("#ifdef"@.len() as int)));
        let found = defined(defines, name);
        stack.push(*active);
        *active = *active && found;
    } else if matches_at(t, 0, else_) {
        let outer = if stack.len() > 0 {
            stack[stack.len() - 1]
        } else {
            true
        };
        *active = outer && !*active;
    } else if matches_at(t, 0, endif) {
        match stack.pop() {
            Some(b) => {
                *active = b;
            },
            None => {
                *active = true;
            },
        }
    } else if !*active || matches_at(t, 0, import) {
    } else {
        push_all(out, line);
        out.push('\n');
    }
}

/// The chars of each define.
fn define_chars(defines: &[&str]) -> (v: Vec<Vec<char>>)
    ensures
        v@.map_values(|d: Vec<char>| d@) == str_views(defines@),
{
    let mut v: Vec<Vec<char>> = Vec::new();
    let mut i: usize = 0;
    while i < defines.len()
        invariant
            i <= defines@.len(),
            v@.map_values(|d: Vec<char>| d@) == str_views(defines@).take(i as int),
        decreases defines@.len() - i,
    {
        let c = chars_of(defines[i]);
        let ghost before = v@;
        v.push(c);
        i = i + 1;
        assert(v@ == before.push(c));
        assert(str_views(defines@).take(i as int) =~= str_views(defines@).take(i - 1).push(
            defines@[i - 1]@,
        ));
        assert(v@.map_values(|d: Vec<char>| d@) =~= str_views(defines@).take(i as int));
    }
    assert(str_views(defines@).take(i as int) =~= str_views(defines@));
    v
}

/// Resolves the directives of `source` against `defines`, drops `#import` lines, rewrites the
/// import paths codegen emits, and puts `stub` in front.
pub fn preprocess(source: &str, stub: &str, defines: &[&str]) -> (out: String)
    ensures
        out@ == preprocessed(source@, stub@, str_views(defines@)),
{
    let src = chars_of(source);
    let defs = define_chars(defines);
    let ghost dv = str_views(defines@);
    let ifdef = chars_of("#ifdef");
    let else_ = chars_of("#else");
    let endif = chars_of("#endif");
    let import = chars_of("#import");
    let mut stack: Vec<bool> = Vec::new();
    let mut active = true;
    let mut out: Vec<char> = Vec::new();
    let mut pos: usize = 0;
    assert(src@.skip(0) =~= src@);
    while pos < src.len()
        invariant
            pos <= src@.len(),
            defs@.map_values(|d: Vec<char>| d@) == dv,
            ifdef@ == "#ifdef"@,
            else_@ == "#else"@,
            endif@ == "#endif"@,
            import@ == "#import"@,
            pp_run(lines(src@.skip(pos as int)), dv, (stack@, active, out@)) == pp_run(
                lines(src@),
                dv,
                (seq![], true, seq![]),
            ),
        decreases src@.len() - pos,
    {
        let ghost rest = src@.skip(pos as int);
        let ghost st0 = (stack@, active, out@);
        let end = line_end(&src, pos);
        let ghost k = newline_index(rest);
        assert(rest.take(k as int) =~= src@.subrange(pos as int, end as int));
        if end < src.len() {
            let line: &[char] = if end > pos && src[end - 1] == '\r' {
                &src[pos..end - 1]
            } else {
                &src[pos..end]
            };
            assert(line@ =~= strip_cr(rest.take(k as int)));
            step(line, &defs, &mut stack, &mut active, &mut out, &ifdef, &else_, &endif, &import);
            assert(rest.skip((k + 1) as int) =~= src@.skip(end + 1));
            let ghost ls = lines(rest);
            assert(ls == seq![line@] + lines(src@.skip(end + 1)));
            assert(ls.drop_first() =~= lines(src@.skip(end + 1)));
            pos = end + 1;
        } else {
            let line: &[char] = &src[pos..end];
            assert(line@ =~= rest);
            step(line, &defs, &mut stack, &mut active, &mut out, &ifdef, &else_, &endif, &import);
            let ghost ls = lines(rest);
            assert(ls == seq![line@]);
            assert(ls.drop_first() =~= Seq::<Seq<char>>::empty());
            assert(src@.skip(src@.len() as int) =~= Seq::<char>::empty());
            pos = src.len();
        }
    }
    assert(src@.skip(pos as int) =~= Seq::<char>::empty());
    assert(out@ == kept_lines(source@, dv));
    proof {
        reveal_strlit("bevy_pbr::prepass_utils::");
        reveal_strlit("pbr_functions::");
        reveal_strlit("mesh_functions::");
    }
    let r1 = replace_chars(&out, &chars_of("bevy_pbr::prepass_utils::"), &chars_of("stub_"));
    let r2 = replace_chars(&r1, &chars_of("pbr_functions::"), &chars_of("stub_"));
    let r3 = replace_chars(&r2, &chars_of("mesh_functions::"), &chars_of("stub_"));
    let mut all = chars_of(stub);
    all.push('\n');
    push_all(&mut all, &r3);
    string_of(&all)
}


/// Whether a line is a directive the preprocessor acts on: `#ifdef`, `#else`, `#endif` or
/// `#import`, after leading whitespace.
pub open spec fn is_directive(line: Seq<char>) -> bool {
    let t = trim_start(line);
    starts_with(t, "#ifdef"@) || starts_with(t, "#else"@) || starts_with(t, "#endif"@)
        || starts_with(t, "#import"@)
}

/// The lines, each followed by a newline.
pub open spec fn with_newlines(ls: Seq<Seq<char>>) -> Seq<char>
    decreases ls.len(),
{
    if ls.len() == 0 {
        seq![]
    } else {
        ls[0] + seq!['\n'] + with_newlines(ls.drop_first())
    }
}

/// Outside any directive, the preprocessor keeps every line as it is.
pub proof fn lemma_plain_lines_pass(ls: Seq<Seq<char>>, defines: Seq<Seq<char>>, stack: Seq<bool>, out: Seq<char>)
    requires
        forall|i: int| 0 <= i < ls.len() ==> !is_directive(#[trigger] ls[i]),
    ensures
        pp_run(ls, defines, (stack, true, out)) == (stack, true, out + with_newlines(ls)),
    decreases ls.len(),
{
    if ls.len() == 0 {
        assert(out + with_newlines(ls) =~= out);
    } else {
        assert(!is_directive(ls[0]));
        assert forall|i: int| 0 <= i < ls.drop_first().len() implies !is_directive(
            #[trigger] ls.drop_first()[i],
        ) by {
            assert(ls.drop_first()[i] == ls[i + 1]);
        }
        lemma_plain_lines_pass(ls.drop_first(), defines, stack, out + ls[0] + seq!['\n']);
        assert(out + ls[0] + seq!['\n'] + with_newlines(ls.drop_first()) =~= out + with_newlines(
            ls,
        ));
    }
}

/// A source with no directive passes through whole whatever the defines: every line is kept,
/// in order, each ending in a newline.
pub proof fn law_plain_source_passes_through(source: Seq<char>, defines: Seq<Seq<char>>)
    requires
        forall|i: int| 0 <= i < lines(source).len() ==> !is_directive(#[trigger] lines(source)[i]),
    ensures
        kept_lines(source, defines) == with_newlines(lines(source)),
{
    lemma_plain_lines_pass(lines(source), defines, seq![], seq![]);
    assert(Seq::<char>::empty() + with_newlines(lines(source)) =~= with_newlines(lines(source)));
}

/// Whether a line opens an `#ifdef` block, after leading whitespace.
pub open spec fn opens_ifdef(line: Seq<char>) -> bool {
    starts_with(trim_start(line), "#ifdef"@)
}

proof fn lemma_run_ignores_defines(
    ls: Seq<Seq<char>>,
    d1: Seq<Seq<char>>,
    d2: Seq<Seq<char>>,
    st: PpState,
)
    requires
        forall|i: int| 0 <= i < ls.len() ==> !opens_ifdef(#[trigger] ls[i]),
    ensures
        pp_run(ls, d1, st) == pp_run(ls, d2, st),
    decreases ls.len(),
{
    if ls.len() > 0 {
        assert(!opens_ifdef(ls[0]));
        assert(pp_step(st, ls[0], d1) == pp_step(st, ls[0], d2));
        assert forall|i: int| 0 <= i < ls.drop_first().len() implies !opens_ifdef(
            #[trigger] ls.drop_first()[i],
        ) by {
            assert(ls.drop_first()[i] == ls[i + 1]);
        }
        lemma_run_ignores_defines(ls.drop_first(), d1, d2, pp_step(st, ls[0], d1));
    }
}

/// The defines only reach a source through its `#ifdef` lines: a source with none preprocesses
/// to the same text under any two sets of defines.
pub proof fn law_defines_act_only_through_ifdef(
    source: Seq<char>,
    stub: Seq<char>,
    d1: Seq<Seq<char>>,
    d2: Seq<Seq<char>>,
)
    requires
        forall|i: int| 0 <= i < lines(source).len() ==> !opens_ifdef(#[trigger] lines(source)[i]),
    ensures
        preprocessed(source, stub, d1) == preprocessed(source, stub, d2),
{
    lemma_run_ignores_defines(lines(source), d1, d2, (seq![], true, seq![]));
}

/// Lines under an `#ifdef` whose name is not defined are dropped: a block of plain lines between
/// `#ifdef NAME` and `#endif`, at top level, adds nothing to the output when `NAME` is not among
/// the defines, and all of it when it is.
pub proof fn law_ifdef_block(
    name_line: Seq<char>,
    body: Seq<Seq<char>>,
    end_line: Seq<char>,
    defines: Seq<Seq<char>>,
    out: Seq<char>,
)
    requires
        starts_with(trim_start(name_line), "#ifdef"@),
        !starts_with(trim_start(end_line), "#ifdef"@),
        !starts_with(trim_start(end_line), "#else"@),
        starts_with(trim_start(end_line), "#endif"@),
        forall|i: int| 0 <= i < body.len() ==> !is_directive(#[trigger] body[i]),
    ensures
        ({
            let name = trim(trim_start(name_line).skip("#ifdef"@.len() as int));
            let after = pp_run(seq![name_line] + body + seq![end_line], defines, (seq![], true, out));
            after == (Seq::<bool>::empty(), true, if is_defined(defines, name) {
                out + with_newlines(body)
            } else {
                out
            })
        }),
{
    let name = trim(trim_start(name_line).skip("#ifdef"@.len() as int));
    let ls = seq![name_line] + body + seq![end_line];
    let st1 = pp_step((seq![], true, out), name_line, defines);
    assert(st1 == (seq![true], is_defined(defines, name), out));
    assert(ls.drop_first() =~= body + seq![end_line]);
    if is_defined(defines, name) {
        lemma_plain_lines_pass_then(body, end_line, defines, seq![true], out);
    } else {
        lemma_inactive_lines_skip(body, end_line, defines, seq![true], out);
    }
}

proof fn lemma_plain_lines_pass_then(
    body: Seq<Seq<char>>,
    end_line: Seq<char>,
    defines: Seq<Seq<char>>,
    stack: Seq<bool>,
    out: Seq<char>,
)
    requires
        forall|i: int| 0 <= i < body.len() ==> !is_directive(#[trigger] body[i]),
        !starts_with(trim_start(end_line), "#ifdef"@),
        !starts_with(trim_start(end_line), "#else"@),
        starts_with(trim_start(end_line), "#endif"@),
        stack.len() > 0,
    ensures
        pp_run(body + seq![end_line], defines, (stack, true, out)) == (stack.drop_last(), stack.last(), out + with_newlines(body)),
    decreases body.len(),
{
    if body.len() == 0 {
        assert(body + seq![end_line] =~= seq![end_line]);
        assert(seq![end_line].drop_first() =~= Seq::<Seq<char>>::empty());
        let st2 = pp_step((stack, true, out), end_line, defines);
        assert(pp_run(Seq::<Seq<char>>::empty(), defines, st2) == st2);
        assert(out + with_newlines(body) =~= out);
    } else {
        assert(!is_directive(body[0]));
        assert forall|i: int| 0 <= i < body.drop_first().len() implies !is_directive(
            #[trigger] body.drop_first()[i],
        ) by {
            assert(body.drop_first()[i] == body[i + 1]);
        }
        assert((body + seq![end_line]).drop_first() =~= body.drop_first() + seq![end_line]);
        assert((body + seq![end_line])[0] == body[0]);
        lemma_plain_lines_pass_then(body.drop_first(), end_line, defines, stack, out + body[0] + seq!['\n']);
        assert(out + body[0] + seq!['\n'] + with_newlines(body.drop_first()) =~= out + with_newlines(body));
    }
}

proof fn lemma_inactive_lines_skip(
    body: Seq<Seq<char>>,
    end_line: Seq<char>,
    defines: Seq<Seq<char>>,
    stack: Seq<bool>,
    out: Seq<char>,
)
    requires
        forall|i: int| 0 <= i < body.len() ==> !is_directive(#[trigger] body[i]),
        !starts_with(trim_start(end_line), "#ifdef"@),
        !starts_with(trim_start(end_line), "#else"@),
        starts_with(trim_start(end_line), "#endif"@),
        stack.len() > 0,
    ensures
        pp_run(body + seq![end_line], defines, (stack, false, out)) == (stack.drop_last(), stack.last(), out),
    decreases body.len(),
{
    if body.len() == 0 {
        assert(body + seq![end_line] =~= seq![end_line]);
        assert(seq![end_line].drop_first() =~= Seq::<Seq<char>>::empty());
        let st2 = pp_step((stack, false, out), end_line, defines);
        assert(pp_run(Seq::<Seq<char>>::empty(), defines, st2) == st2);
    } else {
        assert(!is_directive(body[0]));
        assert forall|i: int| 0 <= i < body.drop_first().len() implies !is_directive(
            #[trigger] body.drop_first()[i],
        ) by {
            assert(body.drop_first()[i] == body[i + 1]);
        }
        assert((body + seq![end_line]).drop_first() =~= body.drop_first() + seq![end_line]);
        assert((body + seq![end_line])[0] == body[0]);
        lemma_inactive_lines_skip(body.drop_first(), end_line, defines, stack, out);
    }
}

/// Whether `s` holds none of `:`, `#`, a newline or a carriage return: text that is neither a
/// path, nor a directive, nor a line break.
pub open spec fn plain_text(s: Seq<char>) -> bool {
    forall|j: int| 0 <= j < s.len() ==> #[trigger] s[j] != ':' && s[j] != '#' && s[j] != '\n' && s[j] != '\r'
}

/// Whether `s` holds no `:`.
pub open spec fn colon_free(s: Seq<char>) -> bool {
    forall|j: int| 0 <= j < s.len() ==> #[trigger] s[j] != ':'
}

proof fn lemma_replace_none(x: Seq<char>, q: Seq<char>, r: Seq<char>)
    requires
        q.len() > 0,
        forall|j: int| 0 <= j <= x.len() ==> !starts_with(#[trigger] x.skip(j), q),
    ensures
        replace_all(x, q, r) == x,
    decreases x.len(),
{
    if x.len() > 0 {
        assert(x.skip(0) =~= x);
        assert forall|j: int| 0 <= j <= x.drop_first().len() implies !starts_with(
            #[trigger] x.drop_first().skip(j),
            q,
        ) by {
            assert(x.drop_first().skip(j) =~= x.skip(j + 1));
        }
        lemma_replace_none(x.drop_first(), q, r);
        assert(seq![x[0]] + x.drop_first() =~= x);
    }
}

proof fn lemma_replace_after(a: Seq<char>, y: Seq<char>, q: Seq<char>, r: Seq<char>)
    requires
        q.len() > 0,
        starts_with(y, q),
        forall|j: int| 0 <= j < a.len() ==> !starts_with(#[trigger] (a + y).skip(j), q),
    ensures
        replace_all(a + y, q, r) == a + r + replace_all(y.skip(q.len() as int), q, r),
    decreases a.len(),
{
    if a.len() == 0 {
        assert(a + y =~= y);
        assert(a + r + replace_all(y.skip(q.len() as int), q, r) =~= r + replace_all(
            y.skip(q.len() as int),
            q,
            r,
        ));
    } else {
        assert((a + y).skip(0) =~= a + y);
        assert((a + y).drop_first() =~= a.drop_first() + y);
        assert forall|j: int| 0 <= j < a.drop_first().len() implies !starts_with(
            #[trigger] (a.drop_first() + y).skip(j),
            q,
        ) by {
            assert((a.drop_first() + y).skip(j) =~= (a + y).skip(j + 1));
        }
        lemma_replace_after(a.drop_first(), y, q, r);
        assert(seq![a[0]] + (a.drop_first() + r + replace_all(y.skip(q.len() as int), q, r))
            =~= a + r + replace_all(y.skip(q.len() as int), q, r));
    }
}

proof fn lemma_colon_free_unchanged(x: Seq<char>, q: Seq<char>, r: Seq<char>, k: int)
    requires
        colon_free(x),
        0 <= k < q.len(),
        q[k] == ':',
    ensures
        replace_all(x, q, r) == x,
{
    assert forall|j: int| 0 <= j <= x.len() implies !starts_with(#[trigger] x.skip(j), q) by {
        if starts_with(x.skip(j), q) {
            assert(x.skip(j).take(q.len() as int)[k] == q[k]);
            assert(x[j + k] == ':');
        }
    }
    lemma_replace_none(x, q, r);
}

/// What a match of `q` at `j` of `x` says of `x`'s characters.
proof fn lemma_match_chars(x: Seq<char>, q: Seq<char>, j: int, k: int)
    requires
        0 <= j <= x.len(),
        starts_with(x.skip(j), q),
        0 <= k < q.len(),
    ensures
        j + k < x.len(),
        x[j + k] == q[k],
{
    assert(x.skip(j).take(q.len() as int)[k] == q[k]);
}

/// Where `a + path + bn` can hold a `:`.
proof fn lemma_colon_in(a: Seq<char>, path: Seq<char>, bn: Seq<char>, i: int)
    requires
        colon_free(a),
        colon_free(bn),
        0 <= i < (a + path + bn).len(),
        (a + path + bn)[i] == ':',
    ensures
        a.len() <= i < a.len() + path.len(),
        path[i - a.len()] == ':',
{
    if i < a.len() {
        assert((a + path + bn)[i] == a[i]);
    } else if i >= a.len() + path.len() {
        assert((a + path + bn)[i] == bn[i - a.len() - path.len()]);
    }
}

/// The import paths codegen emits, each standing for a declaration of the stub.
pub open spec fn import_path(path: Seq<char>) -> bool {
    path == "bevy_pbr::prepass_utils::"@ || path == "pbr_functions::"@ || path == "mesh_functions::"@
}

proof fn lemma_plain_line_kept(line: Seq<char>, defines: Seq<Seq<char>>)
    requires
        line.len() > 0,
        forall|j: int| 0 <= j < line.len() ==> #[trigger] line[j] != '\n' && line[j] != '#',
    ensures
        kept_lines(line, defines) == line + seq!['\n'],
{
    reveal_strlit("#ifdef");
    reveal_strlit("#else");
    reveal_strlit("#endif");
    reveal_strlit("#import");
    crate::text::lemma_newline_index(line);
    if newline_index(line) < line.len() {
        assert(line[newline_index(line) as int] == '\n');
    }
    assert(lines(line) == seq![line]);
    crate::text::lemma_trim_start_skip(line);
    let t = trim_start(line);
    if t.len() > 0 {
        assert(t[0] == line[crate::text::leading_ws(line) as int]);
        assert(t[0] != '#');
        assert(starts_with(t, "#ifdef"@) ==> t.take(6)[0] == '#');
        assert(starts_with(t, "#else"@) ==> t.take(5)[0] == '#');
        assert(starts_with(t, "#endif"@) ==> t.take(6)[0] == '#');
        assert(starts_with(t, "#import"@) ==> t.take(7)[0] == '#');
    }
    assert(!is_directive(line));
    assert forall|i: int| 0 <= i < lines(line).len() implies !is_directive(#[trigger] lines(line)[i]) by {
        assert(lines(line)[i] == line);
    }
    law_plain_source_passes_through(line, defines);
    let ls = seq![line];
    assert(ls.drop_first() =~= Seq::<Seq<char>>::empty());
    assert(with_newlines(Seq::<Seq<char>>::empty()) == Seq::<char>::empty());
    assert(with_newlines(ls) == ls[0] + seq!['\n'] + with_newlines(ls.drop_first()));
    assert(with_newlines(ls) =~= line + seq!['\n']);
}

/// Whether every `:` of `path` stands at `lo` or later.
pub open spec fn colons_from(path: Seq<char>, lo: int) -> bool {
    forall|m: int| 0 <= m < path.len() && #[trigger] path[m] == ':' ==> lo <= m
}

proof fn lemma_bevy_path()
    ensures
        "bevy_pbr::prepass_utils::"@.len() == 25,
        "bevy_pbr::prepass_utils::"@[8] == ':',
        "bevy_pbr::prepass_utils::"@[23] == ':',
        colons_from("bevy_pbr::prepass_utils::"@, 8),
{
    reveal_strlit("bevy_pbr::prepass_utils::");
}

proof fn lemma_pbr_path()
    ensures
        "pbr_functions::"@.len() == 15,
        "pbr_functions::"@[0] == 'p',
        "pbr_functions::"@[13] == ':',
        "pbr_functions::"@[14] == ':',
        colons_from("pbr_functions::"@, 13),
{
    reveal_strlit("pbr_functions::");
}

proof fn lemma_mesh_path()
    ensures
        "mesh_functions::"@.len() == 16,
        "mesh_functions::"@[1] == 'e',
        "mesh_functions::"@[14] == ':',
        colons_from("mesh_functions::"@, 14),
{
    reveal_strlit("mesh_functions::");
}

proof fn lemma_stub_prefix()
    ensures
        "stub_"@.len() == 5,
        colon_free("stub_"@),
{
    reveal_strlit("stub_");
}

/// `path`, whose first `:` is at `lo`, matches in `a + path + bn` first where it stands.
proof fn lemma_replace_own_path(a: Seq<char>, path: Seq<char>, bn: Seq<char>, r: Seq<char>, lo: int)
    requires
        colon_free(a),
        colon_free(bn),
        0 <= lo < path.len(),
        path[lo] == ':',
        colons_from(path, lo),
    ensures
        replace_all(a + path + bn, path, r) == a + r + bn,
{
    let x = a + path + bn;
    let la = a.len() as int;
    assert(a + (path + bn) =~= x);
    assert((path + bn).skip(path.len() as int) =~= bn);
    assert((path + bn).take(path.len() as int) =~= path);
    assert forall|j: int| 0 <= j < la implies !starts_with(#[trigger] (a + (path + bn)).skip(j), path) by {
        if starts_with(x.skip(j), path) {
            lemma_match_chars(x, path, j, lo);
            lemma_colon_in(a, path, bn, j + lo);
        }
    }
    lemma_replace_after(a, path + bn, path, r);
    lemma_colon_free_unchanged(bn, path, r, lo);
}

/// A pattern with two `:` further apart than any two of `path`'s cannot match in
/// `a + path + bn`.
proof fn lemma_no_match_far_colons(
    a: Seq<char>,
    path: Seq<char>,
    bn: Seq<char>,
    q: Seq<char>,
    r: Seq<char>,
    lo: int,
    k1: int,
    k2: int,
)
    requires
        colon_free(a),
        colon_free(bn),
        colons_from(path, lo),
        0 <= k1 < k2 < q.len(),
        q[k1] == ':',
        q[k2] == ':',
        path.len() - lo <= k2 - k1,
    ensures
        replace_all(a + path + bn, q, r) == a + path + bn,
{
    let x = a + path + bn;
    assert forall|j: int| 0 <= j <= x.len() implies !starts_with(#[trigger] x.skip(j), q) by {
        if starts_with(x.skip(j), q) {
            lemma_match_chars(x, q, j, k1);
            lemma_match_chars(x, q, j, k2);
            lemma_colon_in(a, path, bn, j + k1);
            lemma_colon_in(a, path, bn, j + k2);
        }
    }
    lemma_replace_none(x, q, r);
}

proof fn lemma_colon_free_join(a: Seq<char>, st: Seq<char>, bn: Seq<char>)
    requires
        colon_free(a),
        colon_free(st),
        colon_free(bn),
    ensures
        colon_free(a + st + bn),
{
    let after = a + st + bn;
    assert forall|j: int| 0 <= j < after.len() implies #[trigger] after[j] != ':' by {
        if j < a.len() {
            assert(after[j] == a[j]);
        } else if j < a.len() + st.len() {
            assert(after[j] == st[j - a.len()]);
        } else {
            assert(after[j] == bn[j - a.len() - st.len()]);
        }
    }
}

proof fn lemma_rewrite_bevy(a: Seq<char>, bn: Seq<char>)
    requires
        colon_free(a),
        colon_free(bn),
    ensures
        rewrite_paths(a + "bevy_pbr::prepass_utils::"@ + bn) == a + "stub_"@ + bn,
{
    lemma_bevy_path();
    lemma_pbr_path();
    lemma_mesh_path();
    lemma_stub_prefix();
    let st = "stub_"@;
    lemma_replace_own_path(a, "bevy_pbr::prepass_utils::"@, bn, st, 8);
    lemma_colon_free_join(a, st, bn);
    lemma_colon_free_unchanged(a + st + bn, "pbr_functions::"@, st, 13);
    lemma_colon_free_unchanged(a + st + bn, "mesh_functions::"@, st, 14);
}

proof fn lemma_rewrite_pbr(a: Seq<char>, bn: Seq<char>)
    requires
        colon_free(a),
        colon_free(bn),
    ensures
        rewrite_paths(a + "pbr_functions::"@ + bn) == a + "stub_"@ + bn,
{
    lemma_bevy_path();
    lemma_pbr_path();
    lemma_mesh_path();
    lemma_stub_prefix();
    let st = "stub_"@;
    let path = "pbr_functions::"@;
    lemma_no_match_far_colons(a, path, bn, "bevy_pbr::prepass_utils::"@, st, 13, 8, 23);
    lemma_replace_own_path(a, path, bn, st, 13);
    lemma_colon_free_join(a, st, bn);
    lemma_colon_free_unchanged(a + st + bn, "mesh_functions::"@, st, 14);
}

proof fn lemma_rewrite_mesh(a: Seq<char>, bn: Seq<char>)
    requires
        colon_free(a),
        colon_free(bn),
    ensures
        rewrite_paths(a + "mesh_functions::"@ + bn) == a + "stub_"@ + bn,
{
    lemma_bevy_path();
    lemma_pbr_path();
    lemma_mesh_path();
    lemma_stub_prefix();
    let st = "stub_"@;
    let pbr = "pbr_functions::"@;
    let path = "mesh_functions::"@;
    let x = a + path + bn;
    let la = a.len() as int;
    lemma_no_match_far_colons(a, path, bn, "bevy_pbr::prepass_utils::"@, st, 14, 8, 23);
    assert forall|j: int| 0 <= j <= x.len() implies !starts_with(#[trigger] x.skip(j), pbr) by {
        if starts_with(x.skip(j), pbr) {
            lemma_match_chars(x, pbr, j, 13);
            lemma_match_chars(x, pbr, j, 0);
            lemma_colon_in(a, path, bn, j + 13);
            assert(j == la + 1);
            assert(x[j] == path[1]);
        }
    }
    lemma_replace_none(x, pbr, st);
    lemma_replace_own_path(a, path, bn, st, 14);
}

/// An import path in a source line becomes the stub's name for the item: a line made of plain
/// text, one of the import paths `bevy_pbr::prepass_utils::`, `pbr_functions::` or
/// `mesh_functions::`, and plain text again, comes out of the preprocessor behind the stub with
/// the path replaced by `stub_` and everything else as it was, whatever the defines.
pub proof fn law_import_paths_become_stub_names(
    a: Seq<char>,
    path: Seq<char>,
    b: Seq<char>,
    stub: Seq<char>,
    defines: Seq<Seq<char>>,
)
    requires
        import_path(path),
        plain_text(a),
        plain_text(b),
    ensures
        preprocessed(a + path + b, stub, defines) == stub + seq!['\n'] + a + "stub_"@ + b + seq!['\n'],
{
    reveal_strlit("bevy_pbr::prepass_utils::");
    reveal_strlit("pbr_functions::");
    reveal_strlit("mesh_functions::");
    let line = a + path + b;
    let la = a.len() as int;
    assert forall|j: int| 0 <= j < line.len() implies #[trigger] line[j] != '\n' && line[j] != '#' by {
        if j < la {
            assert(line[j] == a[j]);
        } else if j < la + path.len() {
            assert(line[j] == path[j - la]);
        } else {
            assert(line[j] == b[j - la - path.len()]);
        }
    }
    lemma_plain_line_kept(line, defines);
    let bn = b + seq!['\n'];
    assert forall|j: int| 0 <= j < bn.len() implies #[trigger] bn[j] != ':' by {
        if j < b.len() {
            assert(bn[j] == b[j]);
        }
    }
    assert(colon_free(a));
    assert(line + seq!['\n'] =~= a + path + bn);
    if path == "bevy_pbr::prepass_utils::"@ {
        lemma_rewrite_bevy(a, bn);
    } else if path == "pbr_functions::"@ {
        lemma_rewrite_pbr(a, bn);
    } else {
        lemma_rewrite_mesh(a, bn);
    }
    assert(preprocessed(a + path + b, stub, defines) =~= stub + seq!['\n'] + a + "stub_"@ + b
        + seq!['\n']);
}

} // verus!
