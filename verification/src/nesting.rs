//! How deeply a WGSL source nests, counted conservatively, so that a source too deep for naga's
//! recursive front end is turned away before naga sees it.
//!
//! naga parses and lowers WGSL recursively. Its parser stops itself at a fixed nesting limit, but
//! its documentation warns that a thread's stack may run out before that limit answers; and a
//! long chain of operators, postfix accesses or `else if` arms makes a deep tree that lowering
//! and validation walk recursively too. The depth measured here bounds all of these from above:
//! at any point of the source, outside comments, it adds up
//!
//! * the brackets `(`, `[` and `{` open there;
//! * the operator characters `+ - * / % & | ^ ! ~ < > = .` and the `[`s since the statement
//!   began (since the last `;`, `{` or `}`), which covers template lists, unary and binary
//!   operator chains, member and index chains, and a left-hand side's `*` and `&`;
//! * the blocks opened since no bracket was open, which covers the arms of an `else if` chain.
//!
//! Closing brackets are only ever counted outside comments, so a comment cannot hide an open
//! one.

use vstd::prelude::*;
use crate::text::chars_of;

verus! {

/// The deepest nesting a source may have for naga to be given it.
pub const MAX_NESTING: u64 = 96;

/// The diagnostic for a source that nests deeper than [`MAX_NESTING`].
pub const NESTING_TOO_DEEP: &'static str =
    "shader nests too deeply to validate: more than 96 open brackets, operators in one statement and blocks in one declaration at one point";

/// The scanner's state after a prefix of the source: comment mode (`0` in code, `1` in a line
/// comment, `d + 1` inside `d` nested block comments), brackets open, operator characters in the
/// current statement, blocks since no bracket was open, the last character, and the deepest
/// point so far.
pub type Scan = (int, int, int, int, char, int);

/// Whether `c` is an operator character that deepens an expression.
pub open spec fn is_operator(c: char) -> bool {
    c == '+' || c == '-' || c == '*' || c == '/' || c == '%' || c == '&' || c == '|' || c == '^'
        || c == '!' || c == '~' || c == '<' || c == '>' || c == '=' || c == '.'
}

/// One code character's effect on the open brackets, the statement's operators and the blocks.
pub open spec fn code_step(open: int, ops: int, blocks: int, c: char) -> (int, int, int) {
    let closed = if open > 0 {
        open - 1
    } else {
        0
    };
    if c == '{' {
        (open + 1, 0, blocks + 1)
    } else if c == '}' {
        (closed, 0, if closed == 0 {
            0
        } else {
            blocks
        })
    } else if c == '(' {
        (open + 1, ops, blocks)
    } else if c == '[' {
        (open + 1, ops + 1, blocks)
    } else if c == ')' || c == ']' {
        (closed, ops, blocks)
    } else if c == ';' {
        (open, 0, blocks)
    } else if is_operator(c) {
        (open, ops + 1, blocks)
    } else {
        (open, ops, blocks)
    }
}

/// One character's effect on the scanner.
pub open spec fn scan_step(st: Scan, c: char) -> Scan {
    let (mode, open, ops, blocks, last, deepest) = st;
    if mode == 1 {
        (if c == '\n' {
            0
        } else {
            1
        }, open, ops, blocks, c, deepest)
    } else if mode >= 2 {
        if c == '*' && last == '/' {
            (mode + 1, open, ops, blocks, ' ', deepest)
        } else if c == '/' && last == '*' {
            (if mode == 2 {
                0
            } else {
                mode - 1
            }, open, ops, blocks, ' ', deepest)
        } else {
            (mode, open, ops, blocks, c, deepest)
        }
    } else if c == '/' && last == '/' {
        (1, open, ops, blocks, ' ', deepest)
    } else if c == '*' && last == '/' {
        (2, open, ops, blocks, ' ', deepest)
    } else {
        let (o, p, b) = code_step(open, ops, blocks, c);
        (0, o, p, b, c, if o + p + b > deepest {
            o + p + b
        } else {
            deepest
        })
    }
}

/// The scanner's state after all of `s`.
pub open spec fn scan(s: Seq<char>) -> Scan
    decreases s.len(),
{
    if s.len() == 0 {
        (0, 0, 0, 0, ' ', 0)
    } else {
        scan_step(scan(s.drop_last()), s.last())
    }
}

/// How deeply `s` nests: the most brackets, statement operators and declaration blocks open at
/// any one point of it.
pub open spec fn nesting_depth(s: Seq<char>) -> int {
    scan(s).5
}

proof fn lemma_deepest_grows(s: Seq<char>, i: int)
    requires
        0 <= i <= s.len(),
    ensures
        scan(s.take(i)).5 <= scan(s).5,
    decreases s.len() - i,
{
    if i < s.len() {
        lemma_deepest_grows(s, i + 1);
        assert(s.take(i + 1).drop_last() =~= s.take(i));
    } else {
        assert(s.take(i) =~= s);
    }
}

/// Whether `source` nests no deeper than [`MAX_NESTING`].
pub fn nesting_within(source: &str) -> (r: bool)
    ensures
        r == (nesting_depth(source@) <= MAX_NESTING),
{
    let v = chars_of(source);
    let mut mode: usize = 0;
    let mut open: u64 = 0;
    let mut ops: u64 = 0;
    let mut blocks: u64 = 0;
    let mut last: char = ' ';
    let mut deepest: u64 = 0;
    let mut i: usize = 0;
    assert(v@.take(0) =~= Seq::<char>::empty());
    while i < v.len()
        invariant
            i <= v@.len(),
            v@ == source@,
            mode <= i,
            open + ops + blocks <= deepest,
            deepest <= MAX_NESTING,
            scan(v@.take(i as int)) == (mode as int, open as int, ops as int, blocks as int, last, deepest as int),
        decreases v@.len() - i,
    {
        let c = v[i];
        assert(v@.take(i + 1).drop_last() =~= v@.take(i as int));
        assert(v@.take(i + 1).last() == c);
        if mode == 1 {
            if c == '\n' {
                mode = 0;
            }
            last = c;
        } else if mode >= 2 {
            if c == '*' && last == '/' {
                mode = mode + 1;
                last = ' ';
            } else if c == '/' && last == '*' {
                mode = if mode == 2 {
                    0
                } else {
                    mode - 1
                };
                last = ' ';
            } else {
                last = c;
            }
        } else if c == '/' && last == '/' {
            mode = 1;
            last = ' ';
        } else if c == '*' && last == '/' {
            mode = 2;
            last = ' ';
        } else {
            let closed: u64 = if open > 0 {
                open - 1
            } else {
                0
            };
            if c == '{' {
                open = open + 1;
                ops = 0;
                blocks = blocks + 1;
            } else if c == '}' {
                open = closed;
                ops = 0;
                if closed == 0 {
                    blocks = 0;
                }
            } else if c == '(' {
                open = open + 1;
            } else if c == '[' {
                open = open + 1;
                ops = ops + 1;
            } else if c == ')' || c == ']' {
                open = closed;
            } else if c == ';' {
                ops = 0;
            } else if c == '+' || c == '-' || c == '*' || c == '/' || c == '%' || c == '&' || c
                == '|' || c == '^' || c == '!' || c == '~' || c == '<' || c == '>' || c == '='
                || c == '.' {
                ops = ops + 1;
            }
            last = c;
            let here = open + ops + blocks;
            if here > MAX_NESTING {
                proof {
                    lemma_deepest_grows(v@, i + 1);
                }
                return false;
            }
            if here > deepest {
                deepest = here;
            }
        }
        i = i + 1;
    }
    assert(v@.take(i as int) =~= v@);
    true
}

} // verus!
