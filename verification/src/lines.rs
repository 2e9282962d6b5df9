//! The lines of a text.
//!
//! A text is cut at every line feed. A carriage return that stands directly
//! before a line feed belongs to the line break; any other carriage return
//! is part of its line. The text after the last line feed is a line where it
//! is not empty, so a text reads the same with and without a final line
//! break.

use crate::slicing::{byte_len, lemma_byte_len_prefix, lemma_byte_len_step, utf8_width};
use vstd::prelude::*;

verus! {

/// The number of characters of `s` before the first `c`; the length of `s`
/// where it holds none.
pub open spec fn first_index(s: Seq<char>, c: char) -> nat
    decreases s.len(),
{
    if s.len() == 0 || s[0] == c {
        0
    } else {
        1 + first_index(s.drop_first(), c)
    }
}

/// The number of characters before the first line feed of `s`; the length
/// of `s` where it holds none.
pub open spec fn first_break(s: Seq<char>) -> nat {
    first_index(s, '\n')
}

/// The line without the carriage return that ends it, if one does.
pub open spec fn strip_return(line: Seq<char>) -> Seq<char> {
    if line.len() > 0 && line.last() == '\r' {
        line.drop_last()
    } else {
        line
    }
}

/// The first line of a text that is not empty.
pub open spec fn first_line(s: Seq<char>) -> Seq<char> {
    let k = first_break(s) as int;
    if k < s.len() {
        strip_return(s.subrange(0, k))
    } else {
        s
    }
}

/// What follows the first line and its line break.
pub open spec fn after_first_line(s: Seq<char>) -> Seq<char> {
    let k = first_break(s) as int;
    if k < s.len() {
        s.subrange(k + 1, s.len() as int)
    } else {
        Seq::empty()
    }
}

/// The lines of a text, in order. The empty text has no lines.
pub open spec fn lines(s: Seq<char>) -> Seq<Seq<char>>
    decreases s.len(),
{
    if s.len() == 0 {
        Seq::empty()
    } else {
        seq![first_line(s)] + lines(after_first_line(s))
    }
}

/// `first_index` is the least position of the character, or the length.
pub proof fn lemma_first_index(s: Seq<char>, c: char)
    ensures
        first_index(s, c) <= s.len(),
        forall|j: int| 0 <= j < first_index(s, c) ==> s[j] != c,
        first_index(s, c) < s.len() ==> s[first_index(s, c) as int] == c,
    decreases s.len(),
{
    if s.len() == 0 || s[0] == c {
    } else {
        let t = s.drop_first();
        lemma_first_index(t, c);
        assert forall|j: int| 0 <= j < first_index(s, c) implies s[j] != c by {
            if j > 0 {
                assert(s[j] == t[j - 1]);
            }
        }
        if first_index(s, c) < s.len() {
            assert(s[first_index(s, c) as int] == t[first_index(t, c) as int]);
        }
    }
}

/// A position with no `c` before it, which holds one or is the end, is the
/// first index of `c`.
pub proof fn lemma_first_index_is(s: Seq<char>, c: char, k: int)
    requires
        0 <= k <= s.len(),
        forall|j: int| 0 <= j < k ==> s[j] != c,
        k < s.len() ==> s[k] == c,
    ensures
        first_index(s, c) == k,
{
    lemma_first_index(s, c);
    let f = first_index(s, c) as int;
    if f < k {
        assert(s[f] == c);
    } else if k < f {
        assert(s[k] == c);
    }
}

/// No line holds a line feed, and a text has at most as many lines as characters.
pub proof fn lemma_lines(s: Seq<char>)
    ensures
        lines(s).len() <= s.len(),
        forall|i: int, j: int|
            0 <= i < lines(s).len() && 0 <= j < lines(s)[i].len() ==> lines(s)[i][j] != '\n',
    decreases s.len(),
{
    if s.len() > 0 {
        lemma_first_index(s, '\n');
        let rest = after_first_line(s);
        lemma_lines(rest);
        assert forall|i: int, j: int|
            0 <= i < lines(s).len() && 0 <= j < lines(s)[i].len() implies lines(s)[i][j]
            != '\n' by {
            if i > 0 {
                assert(lines(s)[i] == lines(rest)[i - 1]);
            }
        }
    }
}

/// Where the first line of a text ends and the next begins, by character
/// position and by the bytes that lie before each.
pub struct Cut {
    /// The position just after the last character of the line.
    pub end: usize,
    /// The position at which the rest of the text begins.
    pub next: usize,
    /// The bytes that the line takes.
    pub end_width: usize,
    /// The bytes that the line and its line break take.
    pub next_width: usize,
}

/// Finds the end of the line that begins at `start`.
pub fn cut_first_line(text: &Vec<char>, start: usize) -> (cut: Cut)
    requires
        start < text.len(),
        byte_len(text@.subrange(start as int, text.len() as int)) <= usize::MAX,
    ensures
        start <= cut.end <= cut.next <= text.len(),
        start < cut.next,
        text@.subrange(start as int, cut.end as int) == first_line(
            text@.subrange(start as int, text.len() as int),
        ),
        text@.subrange(cut.next as int, text.len() as int) == after_first_line(
            text@.subrange(start as int, text.len() as int),
        ),
        cut.end_width == byte_len(text@.subrange(start as int, cut.end as int)),
        cut.next_width == byte_len(text@.subrange(start as int, cut.next as int)),
{
    let n: usize = text.len();
    let ghost rest = text@.subrange(start as int, n as int);
    let mut i: usize = start;
    let mut width: usize = 0;
    proof {
        assert(rest.subrange(0, 0) =~= Seq::<char>::empty());
    }
    while i < n && text[i] != '\n'
        invariant
            n == text.len(),
            start <= i <= n,
            rest == text@.subrange(start as int, n as int),
            byte_len(rest) <= usize::MAX,
            width == byte_len(rest.subrange(0, i - start)),
            forall|j: int| start <= j < i ==> text@[j] != '\n',
        decreases n - i,
    {
        let w: usize = utf8_width(text[i]);
        proof {
            lemma_byte_len_step(rest, i - start);
            lemma_byte_len_prefix(rest, i - start + 1);
        }
        width = width + w;
        i = i + 1;
    }
    proof {
        lemma_first_index_is(rest, '\n', i - start);
        assert(rest.subrange(0, i - start) =~= text@.subrange(start as int, i as int));
    }
    if i == n {
        proof {
            assert(text@.subrange(start as int, n as int) =~= rest);
            assert(text@.subrange(n as int, n as int) =~= Seq::<char>::empty());
        }
        Cut { end: n, next: n, end_width: width, next_width: width }
    } else {
        let w: usize = utf8_width(text[i]);
        proof {
            lemma_byte_len_step(rest, i - start);
            lemma_byte_len_prefix(rest, i - start + 1);
            assert(rest.subrange(0, i - start + 1) =~= text@.subrange(
                start as int,
                i as int + 1,
            ));
            assert(rest.subrange(i - start + 1, rest.len() as int) =~= text@.subrange(
                i as int + 1,
                n as int,
            ));
        }
        if i > start && text[i - 1] == '\r' {
            let back: usize = utf8_width(text[i - 1]);
            proof {
                lemma_byte_len_step(rest, i - start - 1);
                assert(rest.subrange(0, i - start - 1) =~= text@.subrange(
                    start as int,
                    i as int - 1,
                ));
                assert(rest.subrange(0, i - start).drop_last() =~= rest.subrange(
                    0,
                    i - start - 1,
                ));
            }
            Cut { end: i - 1, next: i + 1, end_width: width - back, next_width: width + w }
        } else {
            Cut { end: i, next: i + 1, end_width: width, next_width: width + w }
        }
    }
}

/// The characters of a string slice, in order.
pub fn chars_of(s: &str) -> (chars: Vec<char>)
    ensures
        chars@ == s@,
{
    let mut chars: Vec<char> = Vec::new();
    for c in it: s.chars()
        invariant
            it.seq() == s@,
            chars@ == s@.subrange(0, it.index() as int),
    {
        chars.push(c);
    }
    chars
}

} // verus!
