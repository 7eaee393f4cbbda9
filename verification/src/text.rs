//! Character-level text operations shared by the preprocessor and the diagnostic printer.

use vstd::prelude::*;
use vstd::string::StringExecFns;

verus! {

/// `String::push` appends one character.
pub assume_specification[ String::push ](s: &mut String, ch: char)
    ensures
        final(s)@ == old(s)@.push(ch),
;

/// The characters of `s`, in order.
pub fn chars_of(s: &str) -> (v: Vec<char>)
    ensures
        v@ == s@,
{
    let mut v: Vec<char> = Vec::new();
    for c in it: s.chars()
        invariant
            v@ == it.seq().take(it.index() as int),
            it.seq() == s@,
    {
        v.push(c);
    }
    v
}

/// The string whose characters are `v`.
pub fn string_of(v: &[char]) -> (s: String)
    ensures
        s@ == v@,
{
    let mut s = String::new();
    let mut i: usize = 0;
    while i < v.len()
        invariant
            i <= v@.len(),
            s@ == v@.take(i as int),
        decreases v@.len() - i,
    {
        s.push(v[i]);
        i = i + 1;
        assert(v@.take(i as int) =~= v@.take(i - 1).push(v@[i - 1]));
    }
    assert(v@.take(v@.len() as int) =~= v@);
    s
}


/// Unicode `White_Space`, the set `char::is_whitespace` tests for.
pub open spec fn is_ws(c: char) -> bool {
    ||| ('\u{9}' <= c && c <= '\u{d}')
    ||| c == ' '
    ||| c == '\u{85}'
    ||| c == '\u{a0}'
    ||| c == '\u{1680}'
    ||| ('\u{2000}' <= c && c <= '\u{200a}')
    ||| c == '\u{2028}'
    ||| c == '\u{2029}'
    ||| c == '\u{202f}'
    ||| c == '\u{205f}'
    ||| c == '\u{3000}'
}

/// Whether `c` is whitespace.
pub fn is_whitespace(c: char) -> (b: bool)
    ensures
        b == is_ws(c),
{
    ('\u{9}' <= c && c <= '\u{d}') || c == ' ' || c == '\u{85}' || c == '\u{a0}' || c == '\u{1680}'
        || ('\u{2000}' <= c && c <= '\u{200a}') || c == '\u{2028}' || c == '\u{2029}' || c
        == '\u{202f}' || c == '\u{205f}' || c == '\u{3000}'
}

/// `s` without its leading whitespace.
pub open spec fn trim_start(s: Seq<char>) -> Seq<char>
    decreases s.len(),
{
    if s.len() > 0 && is_ws(s[0]) {
        trim_start(s.drop_first())
    } else {
        s
    }
}

/// `s` without its trailing whitespace.
pub open spec fn trim_end(s: Seq<char>) -> Seq<char>
    decreases s.len(),
{
    if s.len() > 0 && is_ws(s.last()) {
        trim_end(s.drop_last())
    } else {
        s
    }
}

/// `s` without whitespace at either end.
pub open spec fn trim(s: Seq<char>) -> Seq<char> {
    trim_end(trim_start(s))
}

/// Whether `p` is a prefix of `s`.
pub open spec fn starts_with(s: Seq<char>, p: Seq<char>) -> bool {
    p.len() <= s.len() && s.take(p.len() as int) == p
}

/// Number of leading whitespace characters of `s`.
pub open spec fn leading_ws(s: Seq<char>) -> nat
    decreases s.len(),
{
    if s.len() > 0 && is_ws(s[0]) {
        1 + leading_ws(s.drop_first())
    } else {
        0
    }
}

/// `trim_start` drops exactly the leading whitespace.
pub proof fn lemma_trim_start_skip(s: Seq<char>)
    ensures
        leading_ws(s) <= s.len(),
        trim_start(s) == s.skip(leading_ws(s) as int),
        forall|j: int| 0 <= j < leading_ws(s) ==> is_ws(#[trigger] s[j]),
        leading_ws(s) < s.len() ==> !is_ws(s[leading_ws(s) as int]),
    decreases s.len(),
{
    if s.len() > 0 && is_ws(s[0]) {
        lemma_trim_start_skip(s.drop_first());
        assert(s.drop_first().skip(leading_ws(s.drop_first()) as int) =~= s.skip(
            leading_ws(s) as int,
        ));
        assert forall|j: int| 0 <= j < leading_ws(s) implies is_ws(#[trigger] s[j]) by {
            if j > 0 {
                assert(s[j] == s.drop_first()[j - 1]);
            }
        }
    } else {
        assert(s.skip(0) =~= s);
    }
}

/// Index of the first non-whitespace character of `s`, or its length.
pub fn leading_ws_len(s: &[char]) -> (k: usize)
    ensures
        k == leading_ws(s@),
        k <= s@.len(),
        trim_start(s@) == s@.skip(k as int),
{
    proof {
        lemma_trim_start_skip(s@);
    }
    let mut k: usize = 0;
    while k < s.len() && is_whitespace(s[k])
        invariant
            k <= s@.len(),
            k <= leading_ws(s@),
            leading_ws(s@) <= s@.len(),
            forall|j: int| 0 <= j < leading_ws(s@) ==> is_ws(#[trigger] s@[j]),
            leading_ws(s@) < s@.len() ==> !is_ws(s@[leading_ws(s@) as int]),
        decreases s@.len() - k,
    {
        k = k + 1;
    }
    k
}

/// Number of trailing whitespace characters of `s`.
pub open spec fn trailing_ws(s: Seq<char>) -> nat
    decreases s.len(),
{
    if s.len() > 0 && is_ws(s.last()) {
        1 + trailing_ws(s.drop_last())
    } else {
        0
    }
}

/// `trim_end` drops exactly the trailing whitespace.
pub proof fn lemma_trim_end_take(s: Seq<char>)
    ensures
        trailing_ws(s) <= s.len(),
        trim_end(s) == s.take(s.len() - trailing_ws(s)),
        forall|j: int| s.len() - trailing_ws(s) <= j < s.len() ==> is_ws(#[trigger] s[j]),
        trailing_ws(s) < s.len() ==> !is_ws(s[s.len() - trailing_ws(s) - 1]),
    decreases s.len(),
{
    if s.len() > 0 && is_ws(s.last()) {
        lemma_trim_end_take(s.drop_last());
        assert(s.drop_last().take(s.drop_last().len() - trailing_ws(s.drop_last())) =~= s.take(
            s.len() - trailing_ws(s),
        ));
        assert forall|j: int| s.len() - trailing_ws(s) <= j < s.len() implies is_ws(
            #[trigger] s[j],
        ) by {
            if j < s.len() - 1 {
                assert(s[j] == s.drop_last()[j]);
            }
        }
    } else {
        assert(s.take(s.len() as int) =~= s);
    }
}

/// Length of `s` once its trailing whitespace is dropped.
pub fn trimmed_end_len(s: &[char]) -> (k: usize)
    ensures
        k + trailing_ws(s@) == s@.len(),
        trim_end(s@) == s@.take(k as int),
{
    proof {
        lemma_trim_end_take(s@);
    }
    let mut k: usize = s.len();
    while k > 0 && is_whitespace(s[k - 1])
        invariant
            k <= s@.len(),
            s@.len() - trailing_ws(s@) <= k,
            trailing_ws(s@) <= s@.len(),
            forall|j: int| s@.len() - trailing_ws(s@) <= j < s@.len() ==> is_ws(#[trigger] s@[j]),
            trailing_ws(s@) < s@.len() ==> !is_ws(s@[s@.len() - trailing_ws(s@) - 1]),
        decreases k,
    {
        k = k - 1;
    }
    k
}

/// Whether `p` occurs in `s` at position `i`.
pub fn matches_at(s: &[char], i: usize, p: &[char]) -> (b: bool)
    requires
        i <= s@.len(),
    ensures
        b == starts_with(s@.skip(i as int), p@),
{
    if p.len() > s.len() - i {
        return false;
    }
    let mut j: usize = 0;
    while j < p.len()
        invariant
            j <= p@.len(),
            i + p@.len() <= s@.len(),
            s@.len() <= usize::MAX,
            forall|k: int| 0 <= k < j ==> s@[i + k] == p@[k],
        decreases p@.len() - j,
    {
        if s[i + j] != p[j] {
            assert(s@.skip(i as int).take(p@.len() as int)[j as int] != p@[j as int]);
            return false;
        }
        j = j + 1;
    }
    assert(s@.skip(i as int).take(p@.len() as int) =~= p@);
    true
}


/// `s` with every occurrence of `p` replaced by `r`, matches taken left to right without
/// overlap: what `str::replace` computes for a non-empty pattern.
pub open spec fn replace_all(s: Seq<char>, p: Seq<char>, r: Seq<char>) -> Seq<char>
    decreases s.len(),
{
    if s.len() == 0 || p.len() == 0 {
        s
    } else if starts_with(s, p) {
        r + replace_all(s.skip(p.len() as int), p, r)
    } else {
        seq![s[0]] + replace_all(s.drop_first(), p, r)
    }
}

/// Appends all of `r` to `out`.
pub fn push_all(out: &mut Vec<char>, r: &[char])
    ensures
        final(out)@ == old(out)@ + r@,
{
    let mut i: usize = 0;
    while i < r.len()
        invariant
            i <= r@.len(),
            out@ == old(out)@ + r@.take(i as int),
        decreases r@.len() - i,
    {
        out.push(r[i]);
        i = i + 1;
        assert(r@.take(i as int) =~= r@.take(i - 1).push(r@[i - 1]));
    }
    assert(r@.take(r@.len() as int) =~= r@);
}

/// `s` with every occurrence of the non-empty `p` replaced by `r`.
pub fn replace_chars(s: &[char], p: &[char], r: &[char]) -> (out: Vec<char>)
    requires
        p@.len() > 0,
    ensures
        out@ == replace_all(s@, p@, r@),
{
    let mut out: Vec<char> = Vec::new();
    let mut i: usize = 0;
    assert(s@.skip(0) =~= s@);
    while i < s.len()
        invariant
            i <= s@.len(),
            p@.len() > 0,
            out@ + replace_all(s@.skip(i as int), p@, r@) == replace_all(s@, p@, r@),
        decreases s@.len() - i,
    {
        let ghost rest = s@.skip(i as int);
        let ghost before = out@;
        if matches_at(s, i, p) {
            push_all(&mut out, r);
            assert(rest.skip(p@.len() as int) =~= s@.skip(i + p@.len()));
            assert(before + replace_all(rest, p@, r@) == out@ + replace_all(
                s@.skip(i + p@.len()),
                p@,
                r@,
            ));
            i = i + p.len();
        } else {
            out.push(s[i]);
            assert(rest.drop_first() =~= s@.skip(i + 1));
            assert(rest[0] == s@[i as int]);
            assert(before + replace_all(rest, p@, r@) =~= out@ + replace_all(
                s@.skip(i + 1),
                p@,
                r@,
            ));
            i = i + 1;
        }
    }
    assert(s@.skip(i as int).len() == 0);
    assert(out@ + replace_all(s@.skip(i as int), p@, r@) =~= out@);
    out
}

/// Position of the first `'\n'` in `s`, or its length where there is none.
pub open spec fn newline_index(s: Seq<char>) -> nat
    decreases s.len(),
{
    if s.len() == 0 || s[0] == '\n' {
        0
    } else {
        1 + newline_index(s.drop_first())
    }
}

/// What `newline_index` finds.
pub proof fn lemma_newline_index(s: Seq<char>)
    ensures
        newline_index(s) <= s.len(),
        forall|j: int| 0 <= j < newline_index(s) ==> #[trigger] s[j] != '\n',
        newline_index(s) < s.len() ==> s[newline_index(s) as int] == '\n',
    decreases s.len(),
{
    if s.len() > 0 && s[0] != '\n' {
        lemma_newline_index(s.drop_first());
        assert forall|j: int| 0 <= j < newline_index(s) implies #[trigger] s[j] != '\n' by {
            if j > 0 {
                assert(s[j] == s.drop_first()[j - 1]);
            }
        }
    }
}

/// A line without the `'\r'` of a `"\r\n"` ending.
pub open spec fn strip_cr(l: Seq<char>) -> Seq<char> {
    if l.len() > 0 && l.last() == '\r' {
        l.drop_last()
    } else {
        l
    }
}

/// The lines of `s` as `str::lines` yields them: split at `'\n'`, a `'\r'` just before a
/// `'\n'` dropped with it, and no empty line after a final `'\n'`.
pub open spec fn lines(s: Seq<char>) -> Seq<Seq<char>>
    decreases s.len(),
{
    if s.len() == 0 {
        seq![]
    } else {
        let k = newline_index(s);
        proof {
            lemma_newline_index(s);
        }
        if k == s.len() {
            seq![s]
        } else {
            seq![strip_cr(s.take(k as int))] + lines(s.skip((k + 1) as int))
        }
    }
}

/// The end of the line that starts at `pos`: the index of the next `'\n'`, or the length.
pub fn line_end(s: &[char], pos: usize) -> (end: usize)
    requires
        pos <= s@.len(),
    ensures
        end == pos + newline_index(s@.skip(pos as int)),
        end <= s@.len(),
{
    proof {
        lemma_newline_index(s@.skip(pos as int));
    }
    let mut end = pos;
    while end < s.len() && s[end] != '\n'
        invariant
            pos <= end <= s@.len(),
            end - pos <= newline_index(s@.skip(pos as int)),
            forall|j: int|
                0 <= j < newline_index(s@.skip(pos as int)) ==> #[trigger] s@.skip(pos as int)[j]
                    != '\n',
            newline_index(s@.skip(pos as int)) <= s@.len() - pos,
            newline_index(s@.skip(pos as int)) < s@.len() - pos ==> s@.skip(pos as int)[newline_index(
                s@.skip(pos as int),
            ) as int] == '\n',
        decreases s@.len() - end,
    {
        assert(s@.skip(pos as int)[end - pos] == s@[end as int]);
        end = end + 1;
    }
    proof {
        if end < s@.len() {
            assert(s@.skip(pos as int)[end - pos] == s@[end as int]);
        }
    }
    end
}


/// `parts` joined with `sep` between each neighbouring pair, as `[T]::join` does.
pub open spec fn join(parts: Seq<Seq<char>>, sep: Seq<char>) -> Seq<char>
    decreases parts.len(),
{
    if parts.len() == 0 {
        seq![]
    } else if parts.len() == 1 {
        parts[0]
    } else {
        join(parts.drop_last(), sep) + sep + parts.last()
    }
}

/// `parts` joined with `sep`.
pub fn join_strs(parts: &[&str], sep: &str) -> (s: String)
    ensures
        s@ == join(parts@.map_values(|p: &str| p@), sep@),
{
    let ghost pv = parts@.map_values(|p: &str| p@);
    let mut s = String::new();
    let mut i: usize = 0;
    while i < parts.len()
        invariant
            i <= parts@.len(),
            pv == parts@.map_values(|p: &str| p@),
            s@ == join(pv.take(i as int), sep@),
        decreases parts@.len() - i,
    {
        if i > 0 {
            s.append(sep);
        }
        s.append(parts[i]);
        i = i + 1;
        assert(pv.take(i as int).drop_last() =~= pv.take(i - 1));
        if i == 1 {
            assert(pv.take(0) =~= Seq::<Seq<char>>::empty());
        }
    }
    assert(pv.take(i as int) =~= pv);
    s
}

/// `parts` joined with `sep`.
pub fn join_strings(parts: &[String], sep: &str) -> (s: String)
    ensures
        s@ == join(parts@.map_values(|p: String| p@), sep@),
{
    let ghost pv = parts@.map_values(|p: String| p@);
    let mut s = String::new();
    let mut i: usize = 0;
    while i < parts.len()
        invariant
            i <= parts@.len(),
            pv == parts@.map_values(|p: String| p@),
            s@ == join(pv.take(i as int), sep@),
        decreases parts@.len() - i,
    {
        if i > 0 {
            s.append(sep);
        }
        s.append(parts[i].as_str());
        i = i + 1;
        assert(pv.take(i as int).drop_last() =~= pv.take(i - 1));
        if i == 1 {
            assert(pv.take(0) =~= Seq::<Seq<char>>::empty());
        }
    }
    assert(pv.take(i as int) =~= pv);
    s
}


/// Position of the first `c` in `s`, or its length where there is none.
pub open spec fn index_of(s: Seq<char>, c: char) -> nat
    decreases s.len(),
{
    if s.len() == 0 || s[0] == c {
        0
    } else {
        1 + index_of(s.drop_first(), c)
    }
}

/// What `index_of` finds.
pub proof fn lemma_index_of(s: Seq<char>, c: char)
    ensures
        index_of(s, c) <= s.len(),
        forall|j: int| 0 <= j < index_of(s, c) ==> #[trigger] s[j] != c,
        index_of(s, c) < s.len() ==> s[index_of(s, c) as int] == c,
    decreases s.len(),
{
    if s.len() > 0 && s[0] != c {
        lemma_index_of(s.drop_first(), c);
        assert forall|j: int| 0 <= j < index_of(s, c) implies #[trigger] s[j] != c by {
            if j > 0 {
                assert(s[j] == s.drop_first()[j - 1]);
            }
        }
    }
}

/// Position of the first `c` in `s` at or after `pos`, or the length of `s`.
pub fn find_from(s: &[char], pos: usize, c: char) -> (end: usize)
    requires
        pos <= s@.len(),
    ensures
        end == pos + index_of(s@.skip(pos as int), c),
        end <= s@.len(),
{
    proof {
        lemma_index_of(s@.skip(pos as int), c);
    }
    let mut end = pos;
    while end < s.len() && s[end] != c
        invariant
            pos <= end <= s@.len(),
            end - pos <= index_of(s@.skip(pos as int), c),
            forall|j: int|
                0 <= j < index_of(s@.skip(pos as int), c) ==> #[trigger] s@.skip(pos as int)[j]
                    != c,
            index_of(s@.skip(pos as int), c) <= s@.len() - pos,
            index_of(s@.skip(pos as int), c) < s@.len() - pos ==> s@.skip(pos as int)[index_of(
                s@.skip(pos as int),
                c,
            ) as int] == c,
        decreases s@.len() - end,
    {
        assert(s@.skip(pos as int)[end - pos] == s@[end as int]);
        end = end + 1;
    }
    proof {
        if end < s@.len() {
            assert(s@.skip(pos as int)[end - pos] == s@[end as int]);
        }
    }
    end
}

/// The pieces of `s` between occurrences of `c`, as `str::split` yields them: one more piece
/// than there are occurrences.
pub open spec fn split_on(s: Seq<char>, c: char) -> Seq<Seq<char>>
    decreases s.len(),
{
    let k = index_of(s, c);
    proof {
        lemma_index_of(s, c);
    }
    if k == s.len() {
        seq![s]
    } else {
        seq![s.take(k as int)] + split_on(s.skip((k + 1) as int), c)
    }
}

/// The number of bytes in the UTF-8 encoding of `s`: what `str::len` counts.
pub open spec fn byte_len(s: Seq<char>) -> nat {
    vstd::utf8::encode_utf8(s).len()
}

/// The UTF-8 encoding of a concatenation is the concatenation of the encodings.
pub proof fn lemma_encode_concat(a: Seq<char>, b: Seq<char>)
    ensures
        vstd::utf8::encode_utf8(a + b) == vstd::utf8::encode_utf8(a) + vstd::utf8::encode_utf8(b),
    decreases a.len(),
{
    if a.len() > 0 {
        lemma_encode_concat(a.drop_first(), b);
        assert((a + b).drop_first() =~= a.drop_first() + b);
        assert((a + b)[0] == a[0]);
    } else {
        assert(a + b =~= b);
    }
}

/// The number of bytes `c` takes in UTF-8.
pub fn utf8_width(c: char) -> (w: usize)
    ensures
        w == vstd::utf8::encode_scalar(c as u32).len(),
        1 <= w <= 4,
{
    if c <= '\u{7f}' {
        1
    } else if c <= '\u{7ff}' {
        2
    } else if c <= '\u{ffff}' {
        3
    } else {
        4
    }
}

/// Each character takes at most four bytes.
pub proof fn lemma_byte_len_bound(s: Seq<char>)
    ensures
        byte_len(s) <= 4 * s.len(),
    decreases s.len(),
{
    if s.len() > 0 {
        lemma_byte_len_bound(s.drop_first());
    }
}

/// The byte length of `s.take(n)`.
pub fn byte_offset(s: &[char], n: usize) -> (b: usize)
    requires
        n <= s@.len(),
        byte_len(s@.take(n as int)) <= usize::MAX,
    ensures
        b == byte_len(s@.take(n as int)),
{
    let mut b: usize = 0;
    let mut i: usize = 0;
    while i < n
        invariant
            i <= n <= s@.len(),
            byte_len(s@.take(n as int)) <= usize::MAX,
            b == byte_len(s@.take(i as int)),
        decreases n - i,
    {
        proof {
            assert(s@.take(i + 1) =~= s@.take(i as int) + seq![s@[i as int]]);
            lemma_encode_concat(s@.take(i as int), seq![s@[i as int]]);
            assert(seq![s@[i as int]].drop_first() =~= Seq::<char>::empty());
            assert(vstd::utf8::encode_utf8(Seq::<char>::empty()) =~= Seq::<u8>::empty());
            assert(vstd::utf8::encode_utf8(seq![s@[i as int]]) =~= vstd::utf8::encode_scalar(
                s@[i as int] as u32,
            ));
            assert(s@.take(n as int) =~= s@.take(i + 1) + s@.subrange(i + 1, n as int));
            lemma_encode_concat(s@.take(i + 1), s@.subrange(i + 1, n as int));
        }
        b = b + utf8_width(s[i]);
        i = i + 1;
    }
    b
}

} // verus!
