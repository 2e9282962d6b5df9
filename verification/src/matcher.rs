//! The line matcher: which lines of a text hold a query, with their numbers.

use crate::config::Config;
use crate::decimal::{decimal, push_decimal};
use crate::lines::{chars_of, cut_first_line, first_line, lines, Cut};
use crate::pattern::{contains_in, fold, fold_str, line_matches};
use crate::slicing::{byte_len, lemma_byte_len_suffix, split_chars};
use vstd::prelude::*;
use vstd::string::*;

verus! {

/// A line that matched, as a value of the model: its 1-based number and its text.
pub struct Hit {
    pub number: nat,
    pub text: Seq<char>,
}

/// A line that matched: its 1-based number and its text, borrowed from the
/// text that was searched.
#[derive(Clone, Copy, Debug)]
pub struct Match<'a> {
    pub line_number: usize,
    pub text: &'a str,
}

impl<'a> View for Match<'a> {
    type V = Hit;

    open spec fn view(&self) -> Hit {
        Hit { number: self.line_number as nat, text: self.text@ }
    }
}

/// The lines among `lines` that match `query`, in order, each with its
/// position counted from one.
pub open spec fn matches_in(lines: Seq<Seq<char>>, query: Seq<char>, ignore_case: bool) -> Seq<
    Hit,
>
    decreases lines.len(),
{
    if lines.len() == 0 {
        Seq::empty()
    } else {
        let before = matches_in(lines.drop_last(), query, ignore_case);
        if line_matches(lines.last(), query, ignore_case) {
            before.push(Hit { number: lines.len(), text: lines.last() })
        } else {
            before
        }
    }
}

/// What a search of `contents` for `query` finds.
pub open spec fn search_result(contents: Seq<char>, query: Seq<char>, ignore_case: bool) -> Seq<
    Hit,
> {
    matches_in(lines(contents), query, ignore_case)
}

/// A match as it is reported: the line number in base ten, `# `, and the
/// line as it stands in the text.
pub open spec fn numbered(hit: Hit) -> Seq<char> {
    decimal(hit.number) + seq!['#', ' '] + hit.text
}

/// The models of a sequence of matches.
pub open spec fn hits_of(found: Seq<Match<'_>>) -> Seq<Hit> {
    Seq::new(found.len(), |i: int| found[i]@)
}

/// The characters of each of a sequence of string slices.
pub open spec fn texts_of(found: Seq<&str>) -> Seq<Seq<char>> {
    Seq::new(found.len(), |i: int| found[i]@)
}

/// The characters of each of a sequence of strings.
pub open spec fn strings_of(found: Seq<String>) -> Seq<Seq<char>> {
    Seq::new(found.len(), |i: int| found[i]@)
}

/// The texts of a sequence of hits.
pub open spec fn hit_texts(hits: Seq<Hit>) -> Seq<Seq<char>> {
    Seq::new(hits.len(), |i: int| hits[i].text)
}

/// The reports of a sequence of hits.
pub open spec fn hit_reports(hits: Seq<Hit>) -> Seq<Seq<char>> {
    Seq::new(hits.len(), |i: int| numbered(hits[i]))
}

/// Finds the lines of `contents` that hold `query`, or, when case is
/// ignored, whose lower-case form holds the lower-case form of `query`.
pub fn find_matches<'a>(query: &str, contents: &'a str, ignore_case: bool) -> (found: Vec<
    Match<'a>,
>)
    ensures
        hits_of(found@) == search_result(contents@, query@, ignore_case),
{
    let needle: Vec<char> = if ignore_case {
        let folded = fold_str(query);
        chars_of(folded.as_str())
    } else {
        chars_of(query)
    };
    let text: Vec<char> = chars_of(contents);
    let n: usize = text.len();
    let total: usize = contents.as_bytes().len();
    let mut found: Vec<Match<'a>> = Vec::new();
    let mut rest: &'a str = contents;
    let mut pos: usize = 0;
    let mut number: usize = 0;
    let ghost done: Seq<Seq<char>> = Seq::empty();
    proof {
        assert(text@.subrange(0, n as int) =~= text@);
        assert(hits_of(found@) =~= matches_in(done, query@, ignore_case));
        assert(done + lines(rest@) =~= lines(contents@));
        assert(byte_len(contents@) == total);
    }
    while pos < n
        invariant
            n == text.len(),
            text@ == contents@,
            pos <= n,
            rest@ == text@.subrange(pos as int, n as int),
            byte_len(rest@) <= usize::MAX,
            number == done.len(),
            number <= pos,
            lines(contents@) == done + lines(rest@),
            hits_of(found@) == matches_in(done, query@, ignore_case),
            needle@ == if ignore_case {
                fold(query@)
            } else {
                query@
            },
        decreases n - pos,
    {
        let cut: Cut = cut_first_line(&text, pos);
        let ghost line_chars = first_line(rest@);
        proof {
            assert(rest@.subrange(0, cut.next - pos) =~= text@.subrange(
                pos as int,
                cut.next as int,
            ));
            assert(rest@.subrange(cut.next - pos, rest@.len() as int) =~= text@.subrange(
                cut.next as int,
                n as int,
            ));
        }
        let (head, tail) = split_chars(rest, Ghost(cut.next - pos), cut.next_width);
        proof {
            assert(head@.subrange(0, cut.end - pos) =~= text@.subrange(
                pos as int,
                cut.end as int,
            ));
        }
        let (line, _) = split_chars(head, Ghost(cut.end - pos), cut.end_width);
        number = number + 1;
        let hit: bool = if ignore_case {
            let folded = fold_str(line);
            let folded_chars = chars_of(folded.as_str());
            proof {
                assert(folded_chars@.subrange(0, folded_chars.len() as int) =~= folded_chars@);
            }
            contains_in(&folded_chars, 0, folded_chars.len(), &needle)
        } else {
            contains_in(&text, pos, cut.end, &needle)
        };
        if hit {
            found.push(Match { line_number: number, text: line });
        }
        proof {
            let grown = done.push(line_chars);
            assert(grown.drop_last() =~= done);
            assert(grown + lines(tail@) =~= done + lines(rest@));
            assert(hits_of(found@) =~= matches_in(grown, query@, ignore_case));
            lemma_byte_len_suffix(rest@, cut.next - pos);
            done = grown;
        }
        rest = tail;
        pos = cut.next;
    }
    proof {
        assert(lines(rest@) =~= Seq::<Seq<char>>::empty());
        assert(done + lines(rest@) =~= done);
    }
    found
}

/// Writes a match as it is reported: number, `# `, text.
pub fn report(found: &Match<'_>) -> (line: String)
    ensures
        line@ == numbered(found@),
{
    let mut line = String::new();
    push_decimal(&mut line, found.line_number);
    proof {
        reveal_strlit("# ");
        assert("# "@ =~= seq!['#', ' ']);
    }
    line.append("# ");
    line.append(found.text);
    proof {
        assert(line@ =~= numbered(found@));
    }
    line
}

/// The texts of the matches, in order.
fn texts<'a>(found: &Vec<Match<'a>>) -> (out: Vec<&'a str>)
    ensures
        texts_of(out@) == hit_texts(hits_of(found@)),
{
    let mut out: Vec<&'a str> = Vec::new();
    let mut i: usize = 0;
    while i < found.len()
        invariant
            i <= found.len(),
            out.len() == i,
            forall|k: int| 0 <= k < i ==> out@[k]@ == found@[k].text@,
        decreases found.len() - i,
    {
        out.push(found[i].text);
        i = i + 1;
    }
    proof {
        assert(texts_of(out@) =~= hit_texts(hits_of(found@)));
    }
    out
}

/// The reports of the matches, in order.
fn reports(found: &Vec<Match<'_>>) -> (out: Vec<String>)
    ensures
        strings_of(out@) == hit_reports(hits_of(found@)),
{
    let mut out: Vec<String> = Vec::new();
    let mut i: usize = 0;
    while i < found.len()
        invariant
            i <= found.len(),
            out.len() == i,
            forall|k: int| 0 <= k < i ==> out@[k]@ == numbered(found@[k]@),
        decreases found.len() - i,
    {
        out.push(report(&found[i]));
        i = i + 1;
    }
    proof {
        assert(strings_of(out@) =~= hit_reports(hits_of(found@)));
    }
    out
}

/// The lines of `contents` that hold `query`, compared exactly.
pub fn search<'a>(query: &str, contents: &'a str) -> (found: Vec<&'a str>)
    ensures
        texts_of(found@) == hit_texts(search_result(contents@, query@, false)),
{
    let found = find_matches(query, contents, false);
    texts(&found)
}

/// The lines of `contents` whose lower-case form holds the lower-case form
/// of `query`. The lines are returned as they stand in the text.
pub fn search_case_insensitive<'a>(query: &str, contents: &'a str) -> (found: Vec<&'a str>)
    ensures
        texts_of(found@) == hit_texts(search_result(contents@, query@, true)),
{
    let found = find_matches(query, contents, true);
    texts(&found)
}

/// The reports of the lines of `contents` that match `query`, in the order
/// of the text: for each the line number, `# `, and the line as it stands.
pub fn search_lines(query: &str, contents: &str, ignore_case: bool) -> (found: Vec<String>)
    ensures
        strings_of(found@) == hit_reports(search_result(contents@, query@, ignore_case)),
{
    let found = find_matches(query, contents, ignore_case);
    reports(&found)
}

/// The numbered reports of the lines of `contents` that hold `query`.
///
/// This is the exact comparison; `search_w_l_n` is the one that ignores case.
pub fn search_case_insensitive_w_l_n(query: &str, contents: &str) -> (found: Vec<String>)
    ensures
        strings_of(found@) == hit_reports(search_result(contents@, query@, false)),
{
    search_lines(query, contents, false)
}

/// The numbered reports of the lines of `contents` that hold `query` when
/// case is ignored.
pub fn search_w_l_n(query: &str, contents: &str) -> (found: Vec<String>)
    ensures
        strings_of(found@) == hit_reports(search_result(contents@, query@, true)),
{
    search_lines(query, contents, true)
}

/// Searches `contents` as `conf` asks and returns the lines to print, one
/// for each match. Where nothing matches, nothing is returned.
pub fn run(conf: &Config, contents: &str) -> (found: Vec<String>)
    ensures
        strings_of(found@) == hit_reports(
            search_result(contents@, conf.query@, conf.ignore_case),
        ),
{
    if conf.ignore_case {
        search_w_l_n(conf.query.as_str(), contents)
    } else {
        search_case_insensitive_w_l_n(conf.query.as_str(), contents)
    }
}

} // verus!
