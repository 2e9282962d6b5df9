//! Substring containment, exact and under case folding.

use vstd::prelude::*;

verus! {

/// `needle` stands in `hay` at offset `i`.
pub open spec fn occurs_at(hay: Seq<char>, needle: Seq<char>, i: int) -> bool {
    &&& 0 <= i
    &&& i + needle.len() <= hay.len()
    &&& hay.subrange(i, i + needle.len()) == needle
}

/// `needle` is a contiguous part of `hay`. The empty sequence is a part of every sequence.
pub open spec fn contains(hay: Seq<char>, needle: Seq<char>) -> bool {
    exists|i: int| occurs_at(hay, needle, i)
}

/// The lower-case equivalent of a string, as the Unicode tables of the
/// standard library give it. It depends on the characters alone, not on a
/// locale; it may change the length, and the folding of a character may
/// depend on its neighbours.
pub uninterp spec fn lowercase(s: Seq<char>) -> Seq<char>;

/// `str::to_lowercase` returns the lower-case equivalent of the slice as a
/// new string. Nothing is claimed of that string but that it is the same for
/// the same characters.
pub assume_specification[ str::to_lowercase ](s: &str) -> (folded: String)
    ensures
        folded@ == lowercase(s@),
;

/// The form in which a string is compared when case is ignored: the empty
/// string as it is, any other string in lower case.
pub open spec fn fold(s: Seq<char>) -> Seq<char> {
    if s.len() == 0 {
        s
    } else {
        lowercase(s)
    }
}

/// Whether a line matches a query: by containment of the query as it
/// stands, or, when case is ignored, by containment of the folded query in
/// the folded line.
pub open spec fn line_matches(line: Seq<char>, query: Seq<char>, ignore_case: bool) -> bool {
    if ignore_case {
        contains(fold(line), fold(query))
    } else {
        contains(line, query)
    }
}

/// The empty sequence occurs at the start of every sequence.
pub proof fn lemma_contains_empty(hay: Seq<char>)
    ensures
        contains(hay, Seq::<char>::empty()),
{
    assert(hay.subrange(0, 0) =~= Seq::<char>::empty());
    assert(occurs_at(hay, Seq::<char>::empty(), 0));
}

/// The empty query matches every line, whether case is ignored or not.
pub proof fn lemma_empty_query_matches(line: Seq<char>, ignore_case: bool)
    ensures
        line_matches(line, Seq::<char>::empty(), ignore_case),
{
    lemma_contains_empty(line);
    lemma_contains_empty(fold(line));
}

/// An exact occurrence survives folding wherever the line folds piece by
/// piece around it: the part before, the occurrence and the part after each
/// fold as they would alone.
pub proof fn lemma_occurrence_survives_folding(line: Seq<char>, query: Seq<char>, i: int)
    requires
        occurs_at(line, query, i),
        fold(line) == fold(line.subrange(0, i)) + fold(query) + fold(
            line.subrange(i + query.len(), line.len() as int),
        ),
    ensures
        line_matches(line, query, true),
{
    let before = fold(line.subrange(0, i));
    let k = before.len() as int;
    assert(fold(line).subrange(k, k + fold(query).len()) =~= fold(query));
    assert(occurs_at(fold(line), fold(query), k));
}

/// The string in the form in which it is compared when case is ignored.
pub fn fold_str(s: &str) -> (folded: String)
    ensures
        folded@ == fold(s@),
{
    if s.is_empty() {
        String::new()
    } else {
        s.to_lowercase()
    }
}

/// Tests whether `needle` stands in `hay[from..to]` at offset `at` of that part.
fn matches_at(hay: &Vec<char>, from: usize, to: usize, needle: &Vec<char>, at: usize) -> (hit:
    bool)
    requires
        from <= to <= hay.len(),
        from + at + needle.len() <= to,
    ensures
        hit == occurs_at(hay@.subrange(from as int, to as int), needle@, at as int),
{
    let ghost part = hay@.subrange(from as int, to as int);
    let m: usize = needle.len();
    let mut j: usize = 0;
    while j < m
        invariant
            from <= to <= hay.len(),
            from + at + m <= to,
            m == needle.len(),
            j <= m,
            part == hay@.subrange(from as int, to as int),
            forall|k: int| 0 <= k < j ==> part[at + k] == needle@[k],
        decreases m - j,
    {
        if hay[from + at + j] != needle[j] {
            proof {
                assert(part[at + j] == hay@[from + at + j]);
                assert(part.subrange(at as int, at + m)[j as int] == part[at + j]);
            }
            return false;
        }
        j += 1;
    }
    proof {
        assert(part.subrange(at as int, at + m) =~= needle@);
    }
    true
}

/// Naive substring search: whether `needle` is a contiguous part of `hay[from..to]`.
pub fn contains_in(hay: &Vec<char>, from: usize, to: usize, needle: &Vec<char>) -> (found: bool)
    requires
        from <= to <= hay.len(),
    ensures
        found == contains(hay@.subrange(from as int, to as int), needle@),
{
    let ghost part = hay@.subrange(from as int, to as int);
    let n: usize = to - from;
    let m: usize = needle.len();
    if m > n {
        return false;
    }
    let last: usize = n - m;
    let mut i: usize = 0;
    loop
        invariant
            from <= to <= hay.len(),
            n == to - from,
            m == needle.len(),
            m <= n,
            last == n - m,
            i <= last,
            part == hay@.subrange(from as int, to as int),
            forall|k: int| 0 <= k < i ==> !occurs_at(part, needle@, k),
        decreases last - i,
    {
        if matches_at(hay, from, to, needle, i) {
            return true;
        }
        if i == last {
            return false;
        }
        i += 1;
    }
}

} // verus!
