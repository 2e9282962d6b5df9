//! What holds of every search result.

use crate::decimal::{decimal, is_digit, lemma_decimal_reads_back, number_of};
use crate::lines::{first_index, lemma_first_index_is, lines};
use crate::matcher::{hit_reports, matches_in, numbered, search_result, Hit};
use crate::pattern::{lemma_empty_query_matches, line_matches};
use vstd::prelude::*;

verus! {

/// `hit` is one of `lines`, under its number counted from one, and matches `query`.
pub open spec fn is_matching_line(
    hit: Hit,
    lines: Seq<Seq<char>>,
    query: Seq<char>,
    ignore_case: bool,
) -> bool {
    &&& 1 <= hit.number <= lines.len()
    &&& hit.text == lines[hit.number - 1]
    &&& line_matches(hit.text, query, ignore_case)
}

/// One of `hits` carries the line number `number`.
pub open spec fn reports_line(hits: Seq<Hit>, number: nat) -> bool {
    exists|i: int| 0 <= i < hits.len() && #[trigger] hits[i].number == number
}

/// Every hit is a line of the text, under its own number, and that line
/// matches the query: nothing is reported that does not match, and every
/// text is reported as it stands.
pub proof fn lemma_hits_are_matching_lines(
    lines: Seq<Seq<char>>,
    query: Seq<char>,
    ignore_case: bool,
)
    ensures
        matches_in(lines, query, ignore_case).len() <= lines.len(),
        forall|i: int|
            0 <= i < matches_in(lines, query, ignore_case).len() ==> is_matching_line(
                #[trigger] matches_in(lines, query, ignore_case)[i],
                lines,
                query,
                ignore_case,
            ),
    decreases lines.len(),
{
    if lines.len() > 0 {
        let init = lines.drop_last();
        let before = matches_in(init, query, ignore_case);
        let all = matches_in(lines, query, ignore_case);
        lemma_hits_are_matching_lines(init, query, ignore_case);
        assert forall|i: int| 0 <= i < all.len() implies is_matching_line(
            #[trigger] all[i],
            lines,
            query,
            ignore_case,
        ) by {
            if i < before.len() {
                assert(all[i] == before[i]);
                assert(is_matching_line(before[i], init, query, ignore_case));
                assert(init[before[i].number - 1] == lines[before[i].number - 1]);
            }
        }
    }
}

/// Every line that matches the query is reported: no match is left out.
pub proof fn lemma_matching_lines_are_hits(
    lines: Seq<Seq<char>>,
    query: Seq<char>,
    ignore_case: bool,
)
    ensures
        forall|k: int|
            0 <= k < lines.len() && line_matches(#[trigger] lines[k], query, ignore_case)
                ==> reports_line(matches_in(lines, query, ignore_case), (k + 1) as nat),
    decreases lines.len(),
{
    if lines.len() > 0 {
        let init = lines.drop_last();
        let before = matches_in(init, query, ignore_case);
        let all = matches_in(lines, query, ignore_case);
        lemma_matching_lines_are_hits(init, query, ignore_case);
        assert forall|k: int|
            0 <= k < lines.len() && line_matches(
                #[trigger] lines[k],
                query,
                ignore_case,
            ) implies reports_line(all, (k + 1) as nat) by {
            if k < init.len() {
                assert(init[k] == lines[k]);
                assert(reports_line(before, (k + 1) as nat));
                let i = choose|i: int|
                    0 <= i < before.len() && #[trigger] before[i].number == (k + 1) as nat;
                assert(all[i] == before[i]);
            } else {
                assert(all[all.len() - 1].number == (k + 1) as nat);
            }
        }
    }
}

/// Line numbers count from one and grow strictly from each hit to the
/// next: the hits stand in the order of the text, and no line is reported
/// twice.
pub proof fn lemma_line_numbers_increase(
    lines: Seq<Seq<char>>,
    query: Seq<char>,
    ignore_case: bool,
)
    ensures
        forall|i: int|
            0 <= i < matches_in(lines, query, ignore_case).len() ==> 1 <= (#[trigger] matches_in(
                lines,
                query,
                ignore_case,
            )[i]).number <= lines.len(),
        forall|i: int, j: int|
            0 <= i < j < matches_in(lines, query, ignore_case).len() ==> (#[trigger] matches_in(
                lines,
                query,
                ignore_case,
            )[i]).number < (#[trigger] matches_in(lines, query, ignore_case)[j]).number,
    decreases lines.len(),
{
    lemma_hits_are_matching_lines(lines, query, ignore_case);
    if lines.len() > 0 {
        let init = lines.drop_last();
        let before = matches_in(init, query, ignore_case);
        let all = matches_in(lines, query, ignore_case);
        lemma_line_numbers_increase(init, query, ignore_case);
        assert forall|i: int, j: int| 0 <= i < j < all.len() implies (#[trigger] all[i]).number < (
        #[trigger] all[j]).number by {
            assert(all[i] == before[i]);
            if j < before.len() {
                assert(all[j] == before[j]);
            }
        }
    }
}

/// The empty query matches every line, whether case is ignored or not: the
/// hits are the lines of the text, numbered from one.
pub proof fn lemma_empty_query_finds_every_line(lines: Seq<Seq<char>>, ignore_case: bool)
    ensures
        matches_in(lines, Seq::<char>::empty(), ignore_case) == Seq::new(
            lines.len(),
            |k: int| Hit { number: (k + 1) as nat, text: lines[k] },
        ),
    decreases lines.len(),
{
    let every = Seq::new(lines.len(), |k: int| Hit { number: (k + 1) as nat, text: lines[k] });
    if lines.len() > 0 {
        let init = lines.drop_last();
        lemma_empty_query_finds_every_line(init, ignore_case);
        lemma_empty_query_matches(lines.last(), ignore_case);
    }
    assert(matches_in(lines, Seq::<char>::empty(), ignore_case) =~= every);
}

/// Where no line of the text matches exactly without matching when case is
/// ignored, every hit of the exact search is a hit of the search that
/// ignores case.
pub proof fn lemma_exact_hits_found_ignoring_case(lines: Seq<Seq<char>>, query: Seq<char>)
    requires
        forall|k: int|
            0 <= k < lines.len() && line_matches(#[trigger] lines[k], query, false)
                ==> line_matches(lines[k], query, true),
    ensures
        forall|i: int|
            0 <= i < matches_in(lines, query, false).len() ==> matches_in(
                lines,
                query,
                true,
            ).contains(#[trigger] matches_in(lines, query, false)[i]),
{
    let exact = matches_in(lines, query, false);
    let folded = matches_in(lines, query, true);
    lemma_hits_are_matching_lines(lines, query, false);
    lemma_hits_are_matching_lines(lines, query, true);
    lemma_matching_lines_are_hits(lines, query, true);
    assert forall|i: int| 0 <= i < exact.len() implies folded.contains(#[trigger] exact[i]) by {
        let hit = exact[i];
        assert(is_matching_line(hit, lines, query, false));
        let k = hit.number - 1;
        assert(line_matches(lines[k], query, false));
        assert(reports_line(folded, (k + 1) as nat));
        let j = choose|j: int| 0 <= j < folded.len() && #[trigger] folded[j].number == hit.number;
        assert(is_matching_line(folded[j], lines, query, true));
        assert(folded[j] == hit);
    }
}

/// The line number that a report begins with: what stands before its first `#`.
pub open spec fn report_number(report: Seq<char>) -> nat {
    number_of(report.subrange(0, first_index(report, '#') as int))
}

/// The line that a report holds: what follows its first `#` and the space after it.
pub open spec fn report_text(report: Seq<char>) -> Seq<char> {
    report.subrange(first_index(report, '#') as int + 2, report.len() as int)
}

/// A report can be read back: it begins with the line number, and after
/// the first `#` and one space it holds the line, unchanged. So the numbers
/// that the reports of a search show are those of its hits.
pub proof fn lemma_report_reads_back(hit: Hit)
    ensures
        report_number(numbered(hit)) == hit.number,
        report_text(numbered(hit)) == hit.text,
{
    let digits = decimal(hit.number);
    let report = numbered(hit);
    let k = digits.len() as int;
    lemma_decimal_reads_back(hit.number);
    assert forall|j: int| 0 <= j < k implies report[j] != '#' by {
        assert(report[j] == digits[j]);
        assert(is_digit(digits[j]));
    }
    assert(report[k] == '#');
    lemma_first_index_is(report, '#', k);
    assert(report.subrange(0, k) =~= digits);
    assert(report.subrange(k + 2, report.len() as int) =~= hit.text);
}

/// A search is a function of the text, the query and the mode: two results
/// for the same three are the same, hit by hit and report by report.
pub proof fn lemma_same_search_same_result(
    first: Seq<Hit>,
    second: Seq<Hit>,
    contents: Seq<char>,
    query: Seq<char>,
    ignore_case: bool,
)
    requires
        first == search_result(contents, query, ignore_case),
        second == search_result(contents, query, ignore_case),
    ensures
        first == second,
        hit_reports(first) == hit_reports(second),
{
}

/// The empty text has no lines, so no search of it finds anything.
pub proof fn lemma_empty_text_has_no_hits(query: Seq<char>, ignore_case: bool)
    ensures
        search_result(Seq::<char>::empty(), query, ignore_case) == Seq::<Hit>::empty(),
{
    assert(lines(Seq::<char>::empty()) =~= Seq::<Seq<char>>::empty());
}

} // verus!
