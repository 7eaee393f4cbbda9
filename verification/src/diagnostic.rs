//! The colouring of a codespan-style compiler diagnostic (naga, rustc): a severity header, a
//! `┌─ file:line:col` locator, a gutter carrying the source line, carets under the offending
//! span, `= note` footers. Each line is split into runs by the role it plays; the one line that is
//! really source is left whole for the code editor's tokenizer. An unrecognised line falls
//! through as plain body text.

use vstd::prelude::*;
use crate::text::{
    byte_len, byte_offset, chars_of, find_from, index_of, is_whitespace, join, is_ws, leading_ws_len,
    lines, line_end, matches_at, newline_index, split_on, starts_with, string_of, strip_cr,
    trim_start,
};
use crate::preprocess::chars_eq;

verus! {

/// The colour a run takes, by its role in the theme.
#[derive(Clone, Copy, PartialEq, Eq, Debug, Structural)]
pub enum Hue {
    /// The error red.
    CloseRed,
    /// The warning amber.
    WarnAmber,
    /// The accent, for `note`/`help` and for backticked names.
    Accent,
    /// Punctuation of the diagnostic's frame.
    Placeholder,
    /// Secondary text.
    TextMuted,
    /// Body text.
    TextPrimary,
    /// The gutter's line number.
    LineNumber,
    /// Source code, left whole for the code editor's tokenizer to colour.
    Source,
}

/// The tone a diagnostic block is tinted for.
#[derive(Clone, Copy, PartialEq, Eq, Debug, Structural)]
pub enum Tone {
    Error,
    Warn,
}

/// The hue of a tone.
pub open spec fn tone_hue(tone: Tone) -> Hue {
    match tone {
        Tone::Error => Hue::CloseRed,
        Tone::Warn => Hue::WarnAmber,
    }
}

impl Tone {
    /// The hue this tone tints with.
    pub fn color(self) -> (h: Hue)
        ensures
            h == tone_hue(self),
    {
        match self {
            Tone::Error => Hue::CloseRed,
            Tone::Warn => Hue::WarnAmber,
        }
    }
}

/// A coloured run of text.
pub type Run = (String, Hue);

/// A run as a value.
pub type RunView = (Seq<char>, Hue);

/// The runs, as values.
pub open spec fn runs_view(v: Seq<Run>) -> Seq<RunView> {
    v.map_values(|r: Run| (r.0@, r.1))
}

/// The pieces between backticks, the quoted ones (every second piece) put back in their backticks
/// and coloured with the accent, the rest coloured `base`. A last piece after an unmatched
/// backtick names nothing: it keeps its one backtick and the `base` colour.
pub open spec fn tick_parts(parts: Seq<Seq<char>>, quoted: bool, base: Hue) -> Seq<RunView>
    decreases parts.len(),
{
    if parts.len() == 0 {
        seq![]
    } else {
        let run = if !quoted {
            (parts[0], base)
        } else if parts.len() == 1 {
            (seq!['`'] + parts[0], base)
        } else {
            (seq!['`'] + parts[0] + seq!['`'], Hue::Accent)
        };
        seq![run] + tick_parts(parts.drop_first(), !quoted, base)
    }
}

/// `text` with each backticked name lifted out as its own accent run.
pub open spec fn ticked_spec(text: Seq<char>, base: Hue) -> Seq<RunView> {
    tick_parts(split_on(text, '`'), false, base)
}

/// The colour of a severity word, if it is one.
pub open spec fn severity_hue(word: Seq<char>) -> Option<Hue> {
    if word == "error"@ {
        Some(Hue::CloseRed)
    } else if word == "warning"@ {
        Some(Hue::WarnAmber)
    } else if word == "note"@ || word == "help"@ {
        Some(Hue::Accent)
    } else {
        None
    }
}

/// The runs of an `error[E0425]:` / `warning:` header, or `None` for a line that is not one: the
/// text before the first `:` is a header when, up to any `[`, it is a severity word.
pub open spec fn severity_spec(line: Seq<char>) -> Option<Seq<RunView>> {
    let colon = index_of(line, ':');
    let head = line.take(colon as int);
    let word = head.take(index_of(head, '[') as int);
    if colon == line.len() {
        None
    } else {
        match severity_hue(word) {
            Some(h) => Some(
                seq![(head, h), (":"@, Hue::Placeholder)] + ticked_spec(
                    line.skip((colon + 1) as int),
                    Hue::TextPrimary,
                ),
            ),
            None => None,
        }
    }
}

/// Whether `c` may stand before a gutter's bar.
pub open spec fn gutter_lead(c: char) -> bool {
    ('0' <= c && c <= '9') || is_ws(c)
}

/// Whether `c` is a gutter bar, box-drawing or ASCII.
pub open spec fn is_bar(c: char) -> bool {
    c == '│' || c == '|'
}

/// Position of the first bar in `s`, or its length.
pub open spec fn bar_index(s: Seq<char>) -> nat
    decreases s.len(),
{
    if s.len() == 0 || is_bar(s[0]) {
        0
    } else {
        1 + bar_index(s.drop_first())
    }
}

/// The character count just past the gutter's bar, when the line has one: a bar among its first
/// eight characters with only digits and whitespace before it. A bar further in, such as a WGSL
/// `a | b`, is source.
pub open spec fn gutter_chars(line: Seq<char>) -> Option<nat> {
    let i = bar_index(line);
    if i < 8 && i < line.len() && forall|j: int| 0 <= j < i ==> gutter_lead(#[trigger] line[j]) {
        Some(i + 1)
    } else {
        None
    }
}

/// The byte offset just past the gutter's bar, when the line has one.
pub open spec fn gutter_spec(line: Seq<char>) -> Option<nat> {
    match gutter_chars(line) {
        Some(n) => Some(byte_len(line.take(n as int))),
        None => None,
    }
}

/// Text right of a gutter, or a line with no role of its own: carets (with any label after them)
/// take the block's tone, a blank stays muted, anything else is source.
pub open spec fn body_spec(text: Seq<char>, tone: Tone) -> Seq<RunView> {
    let t = trim_start(text);
    if starts_with(t, "^"@) || starts_with(t, "~"@) {
        seq![(text, tone_hue(tone))]
    } else if t.len() == 0 {
        seq![(text, Hue::TextMuted)]
    } else {
        seq![(text, Hue::Source)]
    }
}

/// The number of leading characters of `s` that are not whitespace.
pub open spec fn word_len(s: Seq<char>) -> nat
    decreases s.len(),
{
    if s.len() == 0 || is_ws(s[0]) {
        0
    } else {
        1 + word_len(s.drop_first())
    }
}

/// The runs of one diagnostic line, by the role it plays.
pub open spec fn line_spec(line: Seq<char>, tone: Tone) -> Seq<RunView> {
    let t = trim_start(line);
    let lead = line.len() - t.len();
    match severity_spec(line) {
        Some(runs) => runs,
        None => if starts_with(t, "┌─"@) || starts_with(t, "-->"@) {
            let split = lead + word_len(t);
            seq![(line.take(split), Hue::Placeholder), (line.skip(split), Hue::TextMuted)]
        } else {
            match gutter_chars(line) {
                Some(b) => seq![(line.take(b as int), Hue::LineNumber)] + body_spec(
                    line.skip(b as int),
                    tone,
                ),
                None => if starts_with(t, "="@) {
                    seq![(line.take(lead + 1), Hue::Placeholder)] + ticked_spec(
                        line.skip(lead + 1),
                        Hue::TextMuted,
                    )
                } else {
                    body_spec(line, tone)
                },
            }
        },
    }
}


/// What `bar_index` finds.
pub proof fn lemma_bar_index(s: Seq<char>)
    ensures
        bar_index(s) <= s.len(),
        forall|j: int| 0 <= j < bar_index(s) ==> !is_bar(#[trigger] s[j]),
        bar_index(s) < s.len() ==> is_bar(s[bar_index(s) as int]),
    decreases s.len(),
{
    if s.len() > 0 && !is_bar(s[0]) {
        lemma_bar_index(s.drop_first());
        assert forall|j: int| 0 <= j < bar_index(s) implies !is_bar(#[trigger] s[j]) by {
            if j > 0 {
                assert(s[j] == s.drop_first()[j - 1]);
            }
        }
    }
}

/// What `word_len` counts.
pub proof fn lemma_word_len(s: Seq<char>)
    ensures
        word_len(s) <= s.len(),
        forall|j: int| 0 <= j < word_len(s) ==> !is_ws(#[trigger] s[j]),
        word_len(s) < s.len() ==> is_ws(s[word_len(s) as int]),
    decreases s.len(),
{
    if s.len() > 0 && !is_ws(s[0]) {
        lemma_word_len(s.drop_first());
        assert forall|j: int| 0 <= j < word_len(s) implies !is_ws(#[trigger] s[j]) by {
            if j > 0 {
                assert(s[j] == s.drop_first()[j - 1]);
            }
        }
    }
}

fn word_len_exec(s: &[char]) -> (k: usize)
    ensures
        k == word_len(s@),
{
    proof {
        lemma_word_len(s@);
    }
    let mut k: usize = 0;
    while k < s.len() && !is_whitespace(s[k])
        invariant
            k <= word_len(s@),
            word_len(s@) <= s@.len(),
            forall|j: int| 0 <= j < word_len(s@) ==> !is_ws(#[trigger] s@[j]),
            word_len(s@) < s@.len() ==> is_ws(s@[word_len(s@) as int]),
        decreases s@.len() - k,
    {
        k = k + 1;
    }
    k
}

fn text_run(v: &[char], h: Hue) -> (r: Run)
    ensures
        r.0@ == v@,
        r.1 == h,
{
    (string_of(v), h)
}

fn literal_run(s: &str, h: Hue) -> (r: Run)
    ensures
        r.0@ == s@,
        r.1 == h,
{
    (String::from_str(s), h)
}

fn push_runs(out: &mut Vec<Run>, more: Vec<Run>)
    ensures
        runs_view(final(out)@) == runs_view(old(out)@) + runs_view(more@),
{
    let mut more = more;
    let ghost m = more@;
    let mut rev: Vec<Run> = Vec::new();
    while more.len() > 0
        invariant
            m == more@ + rev@.reverse(),
        decreases more@.len(),
    {
        let r = more.pop().unwrap();
        let ghost before = rev@;
        rev.push(r);
        assert(rev@.reverse() =~= seq![r] + before.reverse());
        proof {
            assert(m =~= more@ + rev@.reverse());
        }
    }
    assert(rev@.reverse() =~= m);
    let ghost base = out@;
    while rev.len() > 0
        invariant
            runs_view(out@) + runs_view(rev@.reverse()) == runs_view(base) + runs_view(m),
        decreases rev@.len(),
    {
        let ghost before = rev@;
        let ghost before_out = out@;
        let r = rev.pop().unwrap();
        out.push(r);
        assert(before.reverse() =~= seq![r] + rev@.reverse());
        assert(runs_view(before.reverse()) =~= seq![(r.0@, r.1)] + runs_view(rev@.reverse()));
        assert(runs_view(out@) =~= runs_view(before_out).push((r.0@, r.1)));
        assert(runs_view(out@) + runs_view(rev@.reverse()) =~= runs_view(before_out) + runs_view(
            before.reverse(),
        ));
    }
    assert(rev@.reverse() =~= Seq::<Run>::empty());
    assert(runs_view(rev@.reverse()) =~= Seq::<RunView>::empty());
    assert(runs_view(out@) + runs_view(rev@.reverse()) =~= runs_view(out@));
}

fn ticked_chars(text: &[char], base: Hue) -> (r: Vec<Run>)
    ensures
        runs_view(r@) == ticked_spec(text@, base),
{
    let mut out: Vec<Run> = Vec::new();
    let mut pos: usize = 0;
    let mut quoted = false;
    assert(text@.skip(0) =~= text@);
    assert(runs_view(out@) =~= Seq::<RunView>::empty());
    loop
        invariant_except_break
            pos <= text@.len(),
            runs_view(out@) + tick_parts(split_on(text@.skip(pos as int), '`'), quoted, base)
                == ticked_spec(text@, base),
        ensures
            runs_view(out@) == ticked_spec(text@, base),
        decreases text@.len() - pos,
    {
        let ghost rest = text@.skip(pos as int);
        let end = find_from(text, pos, '`');
        let ghost k = index_of(rest, '`');
        let part = &text[pos..end];
        assert(part@ =~= rest.take(k as int));
        let run = if !quoted {
            text_run(part, base)
        } else if end == text.len() {
            let mut v: Vec<char> = Vec::new();
            v.push('`');
            crate::text::push_all(&mut v, part);
            assert(v@ =~= seq!['`'] + part@);
            text_run(&v, base)
        } else {
            let mut v: Vec<char> = Vec::new();
            v.push('`');
            crate::text::push_all(&mut v, part);
            v.push('`');
            assert(v@ =~= seq!['`'] + part@ + seq!['`']);
            text_run(&v, Hue::Accent)
        };
        let ghost before = out@;
        out.push(run);
        assert(runs_view(out@) =~= runs_view(before).push((run.0@, run.1)));
        if end == text.len() {
            assert(k == rest.len());
            assert(rest.take(k as int) =~= rest);
            let ghost parts = split_on(rest, '`');
            assert(parts == seq![rest]);
            assert(parts.drop_first() =~= Seq::<Seq<char>>::empty());
            assert(tick_parts(Seq::<Seq<char>>::empty(), !quoted, base) =~= Seq::<RunView>::empty());
            assert(tick_parts(parts, quoted, base) =~= seq![(run.0@, run.1)]);
            break;
        }
        assert(rest.skip((k + 1) as int) =~= text@.skip(end + 1));
        let ghost parts = split_on(rest, '`');
        assert(parts == seq![rest.take(k as int)] + split_on(text@.skip(end + 1), '`'));
        assert(parts.drop_first() =~= split_on(text@.skip(end + 1), '`'));
        assert(tick_parts(parts, quoted, base) == seq![(run.0@, run.1)] + tick_parts(
            split_on(text@.skip(end + 1), '`'),
            !quoted,
            base,
        ));
        pos = end + 1;
        quoted = !quoted;
    }
    out
}

/// `text` with each backticked name lifted out of the prose as its own accent run, the rest
/// coloured `base`.
pub fn ticked(text: &str, base: Hue) -> (r: Vec<Run>)
    ensures
        runs_view(r@) == ticked_spec(text@, base),
{
    ticked_chars(&chars_of(text), base)
}

fn severity_hue_exec(word: &[char]) -> (h: Option<Hue>)
    ensures
        h == severity_hue(word@),
{
    if chars_eq(word, &chars_of("error")) {
        Some(Hue::CloseRed)
    } else if chars_eq(word, &chars_of("warning")) {
        Some(Hue::WarnAmber)
    } else if chars_eq(word, &chars_of("note")) || chars_eq(word, &chars_of("help")) {
        Some(Hue::Accent)
    } else {
        None
    }
}

fn severity_chars(line: &[char]) -> (r: Option<Vec<Run>>)
    ensures
        match r {
            Some(v) => severity_spec(line@) == Some(runs_view(v@)),
            None => severity_spec(line@) is None,
        },
{
    assert(line@.skip(0) =~= line@);
    let colon = find_from(line, 0, ':');
    if colon == line.len() {
        return None;
    }
    let head = &line[0..colon];
    assert(head@ =~= line@.take(colon as int));
    assert(head@.skip(0) =~= head@);
    let b = find_from(head, 0, '[');
    let word = &head[0..b];
    assert(word@ =~= head@.take(b as int));
    match severity_hue_exec(word) {
        Some(h) => {
            let mut out: Vec<Run> = Vec::new();
            out.push(text_run(head, h));
            out.push(literal_run(":", Hue::Placeholder));
            let rest = &line[colon + 1..line.len()];
            assert(rest@ =~= line@.skip(colon + 1));
            let ghost o = out@;
            assert(runs_view(o) =~= seq![(head@, h), (":"@, Hue::Placeholder)]);
            push_runs(&mut out, ticked_chars(rest, Hue::TextPrimary));
            Some(out)
        },
        None => None,
    }
}

/// The runs of an `error[E0425]:` / `warning:` header, or `None` for a line that is not one.
/// `note` and `help` keep their own colour, not the block's: a note inside an error block is
/// not an error.
pub fn severity_runs(line: &str) -> (r: Option<Vec<Run>>)
    ensures
        match r {
            Some(v) => severity_spec(line@) == Some(runs_view(v@)),
            None => severity_spec(line@) is None,
        },
{
    severity_chars(&chars_of(line))
}

fn gutter_chars_exec(line: &[char]) -> (r: Option<usize>)
    ensures
        match r {
            Some(n) => gutter_chars(line@) == Some(n as nat),
            None => gutter_chars(line@) is None,
        },
{
    proof {
        lemma_bar_index(line@);
    }
    let mut i: usize = 0;
    while i < line.len() && i < 8 && !(line[i] == '│' || line[i] == '|')
        invariant
            i <= line@.len(),
            i <= 8,
            i <= bar_index(line@),
            bar_index(line@) <= line@.len(),
            forall|j: int| 0 <= j < bar_index(line@) ==> !is_bar(#[trigger] line@[j]),
            bar_index(line@) < line@.len() ==> is_bar(line@[bar_index(line@) as int]),
        decreases line@.len() - i,
    {
        i = i + 1;
    }
    if i == line.len() || i == 8 {
        return None;
    }
    assert(i == bar_index(line@));
    let mut j: usize = 0;
    while j < i
        invariant
            j <= i,
            i < line@.len(),
            i < 8,
            i == bar_index(line@),
            forall|k: int| 0 <= k < j ==> gutter_lead(#[trigger] line@[k]),
        decreases i - j,
    {
        let c = line[j];
        if !(('0' <= c && c <= '9') || is_whitespace(c)) {
            assert(!gutter_lead(line@[j as int]));
            return None;
        }
        j = j + 1;
    }
    Some(i + 1)
}

/// Byte offset just past the gutter's `│` (or its ASCII `|`), if this line has one: a bar among
/// its first eight characters with only digits and whitespace before it.
pub fn gutter_split(line: &str) -> (r: Option<usize>)
    ensures
        match r {
            Some(n) => gutter_spec(line@) == Some(n as nat),
            None => gutter_spec(line@) is None,
        },
{
    let chars = chars_of(line);
    match gutter_chars_exec(&chars) {
        Some(n) => {
            proof {
                crate::text::lemma_byte_len_bound(chars@.take(n as int));
            }
            Some(byte_offset(&chars, n))
        },
        None => None,
    }
}

fn body_chars(text: &[char], tone: Tone) -> (r: Vec<Run>)
    ensures
        runs_view(r@) == body_spec(text@, tone),
{
    let k = leading_ws_len(text);
    let t = &text[k..text.len()];
    assert(t@ == trim_start(text@));
    assert(t@.skip(0) =~= t@);
    let mut out: Vec<Run> = Vec::new();
    if matches_at(t, 0, &chars_of("^")) || matches_at(t, 0, &chars_of("~")) {
        out.push(text_run(text, tone.color()));
    } else if k == text.len() {
        out.push(text_run(text, Hue::TextMuted));
    } else {
        out.push(text_run(text, Hue::Source));
    }
    assert(runs_view(out@) =~= body_spec(text@, tone));
    out
}

/// Text right of a gutter, or a line with no role of its own: a run of carets (with whatever
/// label follows it) belongs to the diagnostic and takes the block's tone; anything else is
/// source, left whole for the tokenizer.
pub fn body_runs(text: &str, tone: Tone) -> (r: Vec<Run>)
    ensures
        runs_view(r@) == body_spec(text@, tone),
{
    body_chars(&chars_of(text), tone)
}

fn line_chars(line: &[char], tone: Tone) -> (r: Vec<Run>)
    ensures
        runs_view(r@) == line_spec(line@, tone),
{
    if let Some(runs) = severity_chars(line) {
        return runs;
    }
    let k = leading_ws_len(line);
    let t = &line[k..line.len()];
    assert(t@ == trim_start(line@));
    assert(t@.skip(0) =~= t@);
    let mut out: Vec<Run> = Vec::new();
    if matches_at(t, 0, &chars_of("┌─")) || matches_at(t, 0, &chars_of("-->")) {
        let w = word_len_exec(t);
        proof {
            lemma_word_len(t@);
        }
        let split = k + w;
        out.push(text_run(&line[0..split], Hue::Placeholder));
        out.push(text_run(&line[split..line.len()], Hue::TextMuted));
        assert(line@.subrange(0, split as int) =~= line@.take(split as int));
        assert(line@.subrange(split as int, line@.len() as int) =~= line@.skip(split as int));
        assert(runs_view(out@) =~= line_spec(line@, tone));
        return out;
    }
    match gutter_chars_exec(line) {
        Some(b) => {
            out.push(text_run(&line[0..b], Hue::LineNumber));
            assert(line@.subrange(0, b as int) =~= line@.take(b as int));
            let rest = &line[b..line.len()];
            assert(rest@ =~= line@.skip(b as int));
            push_runs(&mut out, body_chars(rest, tone));
            assert(runs_view(out@) =~= line_spec(line@, tone));
            out
        },
        None => {
            if matches_at(t, 0, &chars_of("=")) {
                proof {
                    reveal_strlit("=");
                }
                let split = k + 1;
                out.push(text_run(&line[0..split], Hue::Placeholder));
                assert(line@.subrange(0, split as int) =~= line@.take(split as int));
                let rest = &line[split..line.len()];
                assert(rest@ =~= line@.skip(split as int));
                push_runs(&mut out, ticked_chars(rest, Hue::TextMuted));
                assert(runs_view(out@) =~= line_spec(line@, tone));
                out
            } else {
                body_chars(line, tone)
            }
        },
    }
}

/// Splits one line into coloured runs by the role it plays in the diagnostic.
pub fn line_runs(line: &str, tone: Tone) -> (r: Vec<Run>)
    ensures
        runs_view(r@) == line_spec(line@, tone),
{
    line_chars(&chars_of(line), tone)
}


/// The runs of consecutive lines, a primary-coloured `"\n"` between each pair.
pub open spec fn join_lines(ls: Seq<Seq<char>>, tone: Tone) -> Seq<RunView>
    decreases ls.len(),
{
    if ls.len() == 0 {
        seq![]
    } else if ls.len() == 1 {
        line_spec(ls[0], tone)
    } else {
        join_lines(ls.drop_last(), tone) + seq![("\n"@, Hue::TextPrimary)] + line_spec(
            ls.last(),
            tone,
        )
    }
}

/// `runs` without the empty ones.
pub open spec fn non_empty(runs: Seq<RunView>) -> Seq<RunView>
    decreases runs.len(),
{
    if runs.len() == 0 {
        seq![]
    } else if runs.last().0.len() == 0 {
        non_empty(runs.drop_last())
    } else {
        non_empty(runs.drop_last()).push(runs.last())
    }
}

/// The runs a diagnostic block shows for `text`: each line's runs, a newline run between lines,
/// and no empty run.
pub open spec fn block_spec(text: Seq<char>, tone: Tone) -> Seq<RunView> {
    non_empty(join_lines(lines(text), tone))
}

/// The runs a diagnostic block shows for `text`, tinted for `tone`: the lines' runs in order, a
/// newline run between lines, and no empty run.
pub fn diagnostic_runs(text: &str, tone: Tone) -> (r: Vec<Run>)
    ensures
        runs_view(r@) == block_spec(text@, tone),
        run_text(runs_view(r@)) == join(lines(text@), "\n"@),
{
    let src = chars_of(text);
    let mut all: Vec<Run> = Vec::new();
    let mut pos: usize = 0;
    let ghost mut done: Seq<Seq<char>> = seq![];
    assert(src@.skip(0) =~= src@);
    assert(runs_view(all@) =~= Seq::<RunView>::empty());
    while pos < src.len()
        invariant
            pos <= src@.len(),
            done + lines(src@.skip(pos as int)) == lines(src@),
            runs_view(all@) == join_lines(done, tone),
            (pos == 0) == (done.len() == 0),
        decreases src@.len() - pos,
    {
        let ghost rest = src@.skip(pos as int);
        let end = line_end(&src, pos);
        let ghost k = newline_index(rest);
        assert(rest.take(k as int) =~= src@.subrange(pos as int, end as int));
        let line: &[char] = if end < src.len() && end > pos && src[end - 1] == '\r' {
            &src[pos..end - 1]
        } else {
            &src[pos..end]
        };
        let ghost prev = all@;
        if pos > 0 {
            all.push(literal_run("\n", Hue::TextPrimary));
            assert(runs_view(all@) =~= runs_view(prev).push(("\n"@, Hue::TextPrimary)));
        }
        let ghost before = all@;
        push_runs(&mut all, line_chars(line, tone));
        if end < src.len() {
            assert(line@ =~= strip_cr(rest.take(k as int)));
            assert(rest.skip((k + 1) as int) =~= src@.skip(end + 1));
            assert(lines(rest) == seq![line@] + lines(src@.skip(end + 1)));
            pos = end + 1;
        } else {
            assert(line@ =~= rest);
            assert(lines(rest) == seq![line@]);
            assert(src@.skip(src@.len() as int) =~= Seq::<char>::empty());
            pos = src.len();
        }
        let ghost new_done = done.push(line@);
        assert(new_done.drop_last() =~= done);
        proof {
            if done.len() == 0 {
                assert(runs_view(before) =~= Seq::<RunView>::empty());
                assert(runs_view(all@) =~= join_lines(new_done, tone));
            } else {
                assert(runs_view(all@) =~= join_lines(new_done, tone));
            }
        }
        assert(new_done + lines(src@.skip(pos as int)) =~= done + lines(rest));
        proof {
            done = new_done;
        }
    }
    assert(src@.skip(pos as int) =~= Seq::<char>::empty());
    assert(done =~= lines(src@));
    let mut out: Vec<Run> = Vec::new();
    let mut i: usize = 0;
    while i < all.len()
        invariant
            i <= all@.len(),
            runs_view(out@) == non_empty(runs_view(all@).take(i as int)),
        decreases all@.len() - i,
    {
        let ghost before = out@;
        if !all[i].0.as_str().is_empty() {
            let r = (all[i].0.clone(), all[i].1);
            out.push(r);
            assert(runs_view(out@) =~= runs_view(before).push((all@[i as int].0@, all@[i as int].1)));
        }
        i = i + 1;
        assert(runs_view(all@).take(i as int).drop_last() =~= runs_view(all@).take(i - 1));
    }
    assert(runs_view(all@).take(i as int) =~= runs_view(all@));
    proof {
        law_block_keeps_the_text(text@, tone);
    }
    out
}


/// The text of runs laid end to end.
pub open spec fn run_text(runs: Seq<RunView>) -> Seq<char>
    decreases runs.len(),
{
    if runs.len() == 0 {
        seq![]
    } else {
        run_text(runs.drop_last()) + runs.last().0
    }
}

proof fn lemma_run_text_concat(a: Seq<RunView>, b: Seq<RunView>)
    ensures
        run_text(a + b) == run_text(a) + run_text(b),
    decreases b.len(),
{
    if b.len() == 0 {
        assert(a + b =~= a);
        assert(run_text(a) + run_text(b) =~= run_text(a));
    } else {
        lemma_run_text_concat(a, b.drop_last());
        assert((a + b).drop_last() =~= a + b.drop_last());
        assert(run_text(a) + run_text(b) =~= run_text(a) + run_text(b.drop_last()) + b.last().0);
    }
}

proof fn lemma_run_text_small(a: RunView, b: RunView)
    ensures
        run_text(seq![a]) == a.0,
        run_text(seq![a, b]) == a.0 + b.0,
{
    assert(seq![a].drop_last() =~= Seq::<RunView>::empty());
    assert(run_text(Seq::<RunView>::empty()) =~= Seq::<char>::empty());
    assert(run_text(seq![a]) =~= a.0);
    assert(seq![a, b].drop_last() =~= seq![a]);
}

/// A backtick when `b` holds, nothing otherwise.
pub open spec fn tick_if(b: bool) -> Seq<char> {
    if b {
        seq!['`']
    } else {
        seq![]
    }
}

/// The text of `ticked` is its input: each quoted piece is put back between the backticks it was
/// cut from, and a last unmatched one keeps only its own.
proof fn lemma_tick_parts_text(s: Seq<char>, quoted: bool, base: Hue)
    ensures
        run_text(tick_parts(split_on(s, '`'), quoted, base)) == tick_if(quoted) + s,
    decreases s.len(),
{
    crate::text::lemma_index_of(s, '`');
    let k = index_of(s, '`');
    let parts = split_on(s, '`');
    let first = s.take(k as int);
    if k == s.len() {
        let run = if quoted {
            (seq!['`'] + first, base)
        } else {
            (first, base)
        };
        assert(first =~= s);
        assert(parts == seq![s]);
        assert(parts.drop_first() =~= Seq::<Seq<char>>::empty());
        assert(tick_parts(Seq::<Seq<char>>::empty(), !quoted, base) =~= Seq::<RunView>::empty());
        assert(tick_parts(parts, quoted, base) =~= seq![run]);
        lemma_run_text_small(run, run);
        assert(run.0 =~= tick_if(quoted) + s);
    } else {
        let rest = s.skip((k + 1) as int);
        let run = if quoted {
            (seq!['`'] + first + seq!['`'], Hue::Accent)
        } else {
            (first, base)
        };
        lemma_tick_parts_text(rest, !quoted, base);
        assert(parts == seq![first] + split_on(rest, '`'));
        assert(parts.drop_first() =~= split_on(rest, '`'));
        assert(parts.len() > 1);
        let tail = tick_parts(split_on(rest, '`'), !quoted, base);
        assert(tick_parts(parts, quoted, base) == seq![run] + tail);
        lemma_run_text_concat(seq![run], tail);
        lemma_run_text_small(run, run);
        assert(s =~= first + seq!['`'] + rest);
        assert(run.0 + tick_if(!quoted) =~= tick_if(quoted) + first + seq!['`']);
        assert(run_text(tick_parts(parts, quoted, base)) =~= tick_if(quoted) + s);
    }
}

/// The colouring never drops, adds or reorders text: a line's runs laid end to end give the line
/// back.
pub proof fn law_runs_keep_the_text(line: Seq<char>, tone: Tone)
    ensures
        run_text(line_spec(line, tone)) == line,
{
    let t = trim_start(line);
    crate::text::lemma_trim_start_skip(line);
    let lead = line.len() - t.len();
    match severity_spec(line) {
        Some(runs) => {
            crate::text::lemma_index_of(line, ':');
            let colon = index_of(line, ':');
            let head = line.take(colon as int);
            let word = head.take(index_of(head, '[') as int);
            let h = severity_hue(word)->Some_0;
            let rest = line.skip((colon + 1) as int);
            let front = seq![(head, h), (":"@, Hue::Placeholder)];
            lemma_tick_parts_text(rest, false, Hue::TextPrimary);
            lemma_run_text_concat(front, ticked_spec(rest, Hue::TextPrimary));
            lemma_run_text_small((head, h), (":"@, Hue::Placeholder));
            reveal_strlit(":");
            assert(line =~= head + ":"@ + rest);
            assert(run_text(line_spec(line, tone)) =~= line);
        },
        None => {
            if starts_with(t, "┌─"@) || starts_with(t, "-->"@) {
                let split = lead + word_len(t);
                lemma_word_len(t);
                let r = seq![(line.take(split), Hue::Placeholder), (line.skip(split), Hue::TextMuted)];
                lemma_run_text_small(r[0], r[1]);
                assert(line.take(split) + line.skip(split) =~= line);
                assert(run_text(line_spec(line, tone)) =~= line);
            } else {
                match gutter_chars(line) {
                    Some(b) => {
                        let body = body_spec(line.skip(b as int), tone);
                        let front = seq![(line.take(b as int), Hue::LineNumber)];
                        lemma_run_text_concat(front, body);
                        lemma_run_text_small(front[0], front[0]);
                        lemma_run_text_small(body[0], body[0]);
                        assert(body =~= seq![body[0]]);
                        assert(line.take(b as int) + line.skip(b as int) =~= line);
                        assert(run_text(line_spec(line, tone)) =~= line);
                    },
                    None => {
                        if starts_with(t, "="@) {
                            reveal_strlit("=");
                            let rest = line.skip(lead + 1);
                            let front = seq![(line.take(lead + 1), Hue::Placeholder)];
                            lemma_tick_parts_text(rest, false, Hue::TextMuted);
                            lemma_run_text_concat(front, ticked_spec(rest, Hue::TextMuted));
                            lemma_run_text_small(front[0], front[0]);
                            assert(line.take(lead + 1) + rest =~= line);
                            assert(run_text(line_spec(line, tone)) =~= line);
                        } else {
                            let body = body_spec(line, tone);
                            lemma_run_text_small(body[0], body[0]);
                            assert(body =~= seq![body[0]]);
                            assert(run_text(line_spec(line, tone)) =~= line);
                        }
                    },
                }
            }
        },
    }
}

proof fn lemma_non_empty_text(runs: Seq<RunView>)
    ensures
        run_text(non_empty(runs)) == run_text(runs),
    decreases runs.len(),
{
    if runs.len() > 0 {
        lemma_non_empty_text(runs.drop_last());
        let rest = non_empty(runs.drop_last());
        if runs.last().0.len() == 0 {
            assert(run_text(runs) =~= run_text(runs.drop_last()));
        } else {
            assert(rest.push(runs.last()).drop_last() =~= rest);
        }
    }
}

proof fn lemma_join_lines_text(ls: Seq<Seq<char>>, tone: Tone)
    ensures
        run_text(join_lines(ls, tone)) == join(ls, "\n"@),
    decreases ls.len(),
{
    if ls.len() == 1 {
        law_runs_keep_the_text(ls[0], tone);
    } else if ls.len() > 1 {
        lemma_join_lines_text(ls.drop_last(), tone);
        law_runs_keep_the_text(ls.last(), tone);
        let front = join_lines(ls.drop_last(), tone) + seq![("\n"@, Hue::TextPrimary)];
        lemma_run_text_concat(front, line_spec(ls.last(), tone));
        lemma_run_text_concat(join_lines(ls.drop_last(), tone), seq![("\n"@, Hue::TextPrimary)]);
        lemma_run_text_small(("\n"@, Hue::TextPrimary), ("\n"@, Hue::TextPrimary));
    }
}

/// A diagnostic block shows every character of its text once, in order, and adds none: its runs
/// laid end to end are the text's lines joined by newlines.
pub proof fn law_block_keeps_the_text(text: Seq<char>, tone: Tone)
    ensures
        run_text(block_spec(text, tone)) == join(lines(text), "\n"@),
{
    lemma_non_empty_text(join_lines(lines(text), tone));
    lemma_join_lines_text(lines(text), tone);
}

/// A gutter is recognised by either bar, box-drawing `│` or ASCII `|`: a line that opens with
/// fewer than eight digits and whitespace followed by a bar has its gutter end just past that
/// bar, one byte after the lead for `|` and three for `│`.
pub proof fn law_either_bar_makes_a_gutter(lead: Seq<char>, bar: char, rest: Seq<char>)
    requires
        lead.len() < 8,
        forall|j: int| 0 <= j < lead.len() ==> ('0' <= #[trigger] lead[j] && lead[j] <= '9') || is_ws(
            lead[j],
        ),
        bar == '|' || bar == '│',
    ensures
        gutter_chars(lead + seq![bar] + rest) == Some((lead.len() + 1) as nat),
        gutter_spec(lead + seq![bar] + rest) == Some(byte_len(lead) + if bar == '|' {
            1nat
        } else {
            3nat
        }),
{
    let line = lead + seq![bar] + rest;
    lemma_bar_index(line);
    assert forall|j: int| 0 <= j < lead.len() implies !is_bar(#[trigger] line[j]) && gutter_lead(
        line[j],
    ) by {
        assert(line[j] == lead[j]);
    }
    assert(line[lead.len() as int] == bar);
    assert(bar_index(line) == lead.len()) by {
        if bar_index(line) < lead.len() {
            assert(is_bar(line[bar_index(line) as int]));
        }
        if bar_index(line) > lead.len() {
            assert(!is_bar(line[lead.len() as int]));
        }
    }
    assert(line.take(lead.len() + 1 as int) =~= lead + seq![bar]);
    crate::text::lemma_encode_concat(lead, seq![bar]);
    assert(seq![bar].drop_first() =~= Seq::<char>::empty());
    assert(seq![bar][0] == bar);
    assert(vstd::utf8::encode_utf8(Seq::<char>::empty()) =~= Seq::<u8>::empty());
    assert(vstd::utf8::encode_utf8(seq![bar]) =~= vstd::utf8::encode_scalar(bar as u32));
}

} // verus!
