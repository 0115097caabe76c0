use vstd::prelude::*;

use crate::lexer::chars_of;
use crate::text::{append_decimal, decimal};

verus! {

/// The first position of `c` in `s`.
pub open spec fn first_index(s: Seq<char>, c: char) -> Option<int>
    decreases s.len(),
{
    if s.len() == 0 {
        None
    } else {
        match first_index(s.drop_last(), c) {
            Some(k) => Some(k),
            None => if s.last() == c {
                Some(s.len() - 1)
            } else {
                None
            },
        }
    }
}

/// How many newlines `s` holds before position `p`.
pub open spec fn newlines_before(s: Seq<char>, p: int) -> nat
    decreases p,
{
    if p <= 0 {
        0
    } else if s[p - 1] == '\n' {
        newlines_before(s, p - 1) + 1
    } else {
        newlines_before(s, p - 1)
    }
}

/// The start of the line that holds position `p`.
pub open spec fn line_start(s: Seq<char>, p: int) -> int
    decreases p,
{
    if p <= 0 {
        0
    } else if s[p - 1] == '\n' {
        p
    } else {
        line_start(s, p - 1)
    }
}

/// The end of the line that holds position `p`: its newline, or the end of `s`.
pub open spec fn line_end(s: Seq<char>, p: int) -> int
    decreases s.len() - p,
{
    if p >= s.len() || s[p] == '\n' {
        p
    } else {
        line_end(s, p + 1)
    }
}

/// The number of bytes of `c` in UTF-8.
pub open spec fn utf8_len(c: char) -> nat {
    let u = c as u32;
    if u < 0x80 {
        1
    } else if u < 0x800 {
        2
    } else if u < 0x10000 {
        3
    } else {
        4
    }
}

/// The number of bytes of `s` in UTF-8.
pub open spec fn utf8_size(s: Seq<char>) -> nat
    decreases s.len(),
{
    if s.len() == 0 {
        0
    } else {
        utf8_size(s.drop_last()) + utf8_len(s.last())
    }
}

pub open spec fn spaces(n: nat) -> Seq<char> {
    Seq::new(n, |i: int| ' ')
}

/// Where `c` first stands in the lines of `s` (split at each newline): the line number,
/// the line, and the byte column of `c` in it; line 0, empty and column 0 where no line
/// holds it.
pub open spec fn locate(s: Seq<char>, c: char) -> (nat, Seq<char>, nat) {
    match first_index(s, c) {
        Some(p) => if c == '\n' {
            (0, Seq::empty(), 0)
        } else {
            let start = line_start(s, p);
            (newlines_before(s, p), s.subrange(start, line_end(s, p)), utf8_size(
                s.subrange(start, p),
            ))
        },
        None => (0, Seq::empty(), 0),
    }
}

/// The report of an invalid character: `--> line:col`, the line, and a caret under `c`.
pub open spec fn invalid_char_report(s: Seq<char>, c: char) -> Seq<char> {
    let (line, text, col) = locate(s, c);
    "--> "@ + decimal(line) + ":"@ + decimal(col) + "\n"@ + text + "\n"@ + spaces(col)
        + "^ invalid char"@
}

fn char_size(c: char) -> (r: usize)
    ensures
        r == utf8_len(c),
{
    let u = c as u32;
    if u < 0x80 {
        1
    } else if u < 0x800 {
        2
    } else if u < 0x10000 {
        3
    } else {
        4
    }
}

/// Describes where the invalid character `c` first occurs in `source`.
pub fn invalid_char_error(source: &str, c: char) -> (r: String)
    requires
        source@.len() <= usize::MAX / 4,
    ensures
        r@ == invalid_char_report(source@, c),
{
    let cs = chars_of(source);
    let n = cs.len();
    let mut p: usize = 0;
    let mut line: usize = 0;
    let mut start: usize = 0;
    let mut col: usize = 0;
    proof {
        assert(cs@.subrange(0, 0) =~= Seq::<char>::empty());
        assert(cs@.subrange(0, 0) =~= cs@.subrange(start as int, 0));
    }
    while p < n && cs[p] != c
        invariant
            p <= n == cs.len(),
            n <= usize::MAX / 4,
            cs@ == source@,
            first_index(cs@.subrange(0, p as int), c) is None,
            line == newlines_before(cs@, p as int),
            line <= p,
            start == line_start(cs@, p as int),
            start <= p,
            col == utf8_size(cs@.subrange(start as int, p as int)),
            col <= 4 * (p - start),
        decreases n - p,
    {
        proof {
            assert(cs@.subrange(0, p + 1).drop_last() =~= cs@.subrange(0, p as int));
        }
        if cs[p] == '\n' {
            line = line + 1;
            start = p + 1;
            col = 0;
            proof {
                assert(cs@.subrange(start as int, p + 1) =~= Seq::<char>::empty());
            }
        } else {
            proof {
                assert(cs@.subrange(start as int, p + 1).drop_last() =~= cs@.subrange(
                    start as int,
                    p as int,
                ));
            }
            col = col + char_size(cs[p]);
        }
        p = p + 1;
    }
    let mut out = String::from_str("--> ");
    if p == n || c == '\n' {
        proof {
            if p == n {
                assert(cs@.subrange(0, p as int) =~= cs@);
            } else {
                lemma_first_index_at(cs@, c, p as int);
            }
            reveal_strlit("0");
        }
        out.append("0:0\n\n^ invalid char");
        proof {
            assert(spaces(0) =~= Seq::<char>::empty());
            reveal_strlit("--> ");
            reveal_strlit(":");
            reveal_strlit("\n");
            reveal_strlit("^ invalid char");
            reveal_strlit("0:0\n\n^ invalid char");
            assert(out@ =~= invalid_char_report(source@, c));
        }
        return out;
    }
    proof {
        lemma_first_index_at(cs@, c, p as int);
    }
    let mut end = p;
    while end < n && cs[end] != '\n'
        invariant
            p <= end <= n == cs.len(),
            line_end(cs@, p as int) == line_end(cs@, end as int),
        decreases n - end,
    {
        end = end + 1;
    }
    append_decimal(&mut out, line);
    out.append(":");
    append_decimal(&mut out, col);
    out.append("\n");
    out.append(source.substring_char(start, end));
    out.append("\n");
    let ghost before = out@;
    let mut k: usize = 0;
    while k < col
        invariant
            k <= col,
            out@ == before + spaces(k as nat),
        decreases col - k,
    {
        out.append(" ");
        proof {
            reveal_strlit(" ");
            assert(spaces((k + 1) as nat) =~= spaces(k as nat).push(' '));
        }
        k = k + 1;
    }
    out.append("^ invalid char");
    out
}

proof fn lemma_first_index_at(s: Seq<char>, c: char, p: int)
    requires
        0 <= p < s.len(),
        s[p] == c,
        first_index(s.subrange(0, p), c) is None,
    ensures
        first_index(s, c) == Some(p),
    decreases s.len(),
{
    if p < s.len() - 1 {
        assert(s.drop_last().subrange(0, p) =~= s.subrange(0, p));
        lemma_first_index_at(s.drop_last(), c, p);
    } else {
        assert(s.drop_last() =~= s.subrange(0, p));
    }
}

} // verus!
