//! What holds of every search and of every configuration.

use vstd::prelude::*;
use crate::case::lowercase;
use crate::config::{configured, outcome, ArgumentError, Config};
use crate::lines::{lemma_line_is_part_of_text, lines_of};
use crate::pattern::{is_substring, lemma_substring_is_transitive, occurs_at};
use crate::search::{
    contains_query, contains_query_ignoring_case, matching_lines, matching_lines_ignoring_case,
    select, trimmed_all,
};
use crate::whitespace::{has_bare_ends, lemma_trimmed, lemma_trimming_keeps_bare_part, trimmed};

verus! {

/// The position in `lines` of the line that stands at position `i` among
/// those that pass `keep`.
pub open spec fn source_of(lines: Seq<Seq<char>>, keep: spec_fn(Seq<char>) -> bool, i: int) -> int
    decreases lines.len(),
{
    if lines.len() == 0 {
        0
    } else if i < lines.drop_last().filter(keep).len() {
        source_of(lines.drop_last(), keep, i)
    } else {
        lines.len() - 1
    }
}

/// Every selected line is a line that passes the test, trimmed.
pub proof fn lemma_selected_line_has_source(
    lines: Seq<Seq<char>>,
    keep: spec_fn(Seq<char>) -> bool,
    i: int,
)
    requires
        0 <= i < select(lines, keep).len(),
    ensures
        0 <= source_of(lines, keep, i) < lines.len(),
        keep(lines[source_of(lines, keep, i)]),
        select(lines, keep)[i] == trimmed(lines[source_of(lines, keep, i)]),
    decreases lines.len(),
{
    reveal(Seq::filter);
    if lines.len() > 0 {
        let front = lines.drop_last();
        if i < front.filter(keep).len() {
            lemma_selected_line_has_source(front, keep, i);
        }
    }
}

/// The selected lines stand in the order of the lines they come from.
pub proof fn lemma_selected_lines_keep_order(
    lines: Seq<Seq<char>>,
    keep: spec_fn(Seq<char>) -> bool,
    i: int,
    j: int,
)
    requires
        0 <= i < j < select(lines, keep).len(),
    ensures
        source_of(lines, keep, i) < source_of(lines, keep, j),
    decreases lines.len(),
{
    reveal(Seq::filter);
    if lines.len() > 0 {
        let front = lines.drop_last();
        if j < front.filter(keep).len() {
            lemma_selected_lines_keep_order(front, keep, i, j);
        } else {
            lemma_selected_line_has_source(front, keep, i);
        }
    }
}

/// Every line that passes the test is selected.
pub proof fn lemma_passing_line_is_selected(
    lines: Seq<Seq<char>>,
    keep: spec_fn(Seq<char>) -> bool,
    j: int,
)
    requires
        0 <= j < lines.len(),
        keep(lines[j]),
    ensures
        exists|i: int|
            0 <= i < select(lines, keep).len() && #[trigger] source_of(lines, keep, i) == j,
    decreases lines.len(),
{
    reveal(Seq::filter);
    let front = lines.drop_last();
    if j == lines.len() - 1 {
        assert(source_of(lines, keep, front.filter(keep).len() as int) == j);
    } else {
        lemma_passing_line_is_selected(front, keep, j);
        let i = choose|i: int|
            0 <= i < select(front, keep).len() && #[trigger] source_of(front, keep, i) == j;
        assert(source_of(lines, keep, i) == j);
    }
}

/// Where every line passes the test, every line is selected.
pub proof fn lemma_select_all(lines: Seq<Seq<char>>, keep: spec_fn(Seq<char>) -> bool)
    requires
        forall|j: int| 0 <= j < lines.len() ==> keep(#[trigger] lines[j]),
    ensures
        lines.filter(keep) == lines,
        select(lines, keep) == trimmed_all(lines),
    decreases lines.len(),
{
    reveal(Seq::filter);
    if lines.len() > 0 {
        let front = lines.drop_last();
        assert forall|j: int| 0 <= j < front.len() implies keep(#[trigger] front[j]) by {
            assert(front[j] == lines[j]);
        }
        lemma_select_all(front, keep);
        assert(keep(lines[lines.len() - 1]));
        assert(front.push(lines.last()) =~= lines);
    }
}

/// A test that passes whatever another passes selects no fewer lines.
pub proof fn lemma_wider_test_selects_no_less(
    lines: Seq<Seq<char>>,
    narrow: spec_fn(Seq<char>) -> bool,
    wide: spec_fn(Seq<char>) -> bool,
)
    requires
        forall|j: int| 0 <= j < lines.len() && narrow(#[trigger] lines[j]) ==> wide(lines[j]),
    ensures
        select(lines, narrow).len() <= select(lines, wide).len(),
    decreases lines.len(),
{
    reveal(Seq::filter);
    if lines.len() > 0 {
        let front = lines.drop_last();
        assert forall|j: int| 0 <= j < front.len() && narrow(#[trigger] front[j]) implies wide(
            front[j],
        ) by {
            assert(front[j] == lines[j]);
        }
        lemma_wider_test_selects_no_less(front, narrow, wide);
        assert(narrow(lines[lines.len() - 1]) ==> wide(lines[lines.len() - 1]));
    }
}

/// The empty text occurs in every text.
pub proof fn lemma_empty_is_substring(hay: Seq<char>)
    ensures
        is_substring(Seq::<char>::empty(), hay),
{
    assert(hay.subrange(0, 0) =~= Seq::<char>::empty());
    assert(occurs_at(Seq::<char>::empty(), hay, 0));
}

/// A case-sensitive search finds nothing but lines of the text that
/// contain the query, each trimmed: the line found at position `i` is the
/// line of the text at position `source_of(.., i)`.
pub proof fn lemma_search_finds_only_matches(query: Seq<char>, text: Seq<char>, i: int)
    requires
        0 <= i < matching_lines(query, text).len(),
    ensures
        ({
            let lines = lines_of(text);
            let j = source_of(lines, contains_query(query), i);
            &&& 0 <= j < lines.len()
            &&& is_substring(query, lines[j])
            &&& matching_lines(query, text)[i] == trimmed(lines[j])
        }),
{
    lemma_selected_line_has_source(lines_of(text), contains_query(query), i);
}

/// A case-sensitive search leaves out no line of the text that contains
/// the query.
pub proof fn lemma_search_finds_every_match(query: Seq<char>, text: Seq<char>, j: int)
    requires
        0 <= j < lines_of(text).len(),
        is_substring(query, lines_of(text)[j]),
    ensures
        exists|i: int|
            0 <= i < matching_lines(query, text).len() && #[trigger] source_of(
                lines_of(text),
                contains_query(query),
                i,
            ) == j && matching_lines(query, text)[i] == trimmed(lines_of(text)[j]),
{
    let lines = lines_of(text);
    let keep = contains_query(query);
    lemma_passing_line_is_selected(lines, keep, j);
    let i = choose|i: int|
        0 <= i < select(lines, keep).len() && #[trigger] source_of(lines, keep, i) == j;
    lemma_selected_line_has_source(lines, keep, i);
}

/// Where the query has no white space at its ends, every line that a
/// case-sensitive search finds contains the query, trimmed as it is.
pub proof fn lemma_found_line_contains_query(query: Seq<char>, text: Seq<char>, i: int)
    requires
        has_bare_ends(query),
        0 <= i < matching_lines(query, text).len(),
    ensures
        is_substring(query, matching_lines(query, text)[i]),
{
    let lines = lines_of(text);
    let j = source_of(lines, contains_query(query), i);
    lemma_selected_line_has_source(lines, contains_query(query), i);
    lemma_trimming_keeps_bare_part(query, lines[j]);
}

/// What a search finds stands in the order of the text: of two lines
/// found, the earlier one comes from the earlier line of the text.
pub proof fn lemma_search_keeps_order(query: Seq<char>, text: Seq<char>, i: int, j: int)
    requires
        0 <= i < j < matching_lines(query, text).len(),
    ensures
        source_of(lines_of(text), contains_query(query), i) < source_of(
            lines_of(text),
            contains_query(query),
            j,
        ),
{
    lemma_selected_lines_keep_order(lines_of(text), contains_query(query), i, j);
}

/// A search for the empty query finds every line of the text, trimmed.
pub proof fn lemma_empty_query_finds_every_line(text: Seq<char>)
    ensures
        matching_lines(Seq::<char>::empty(), text) == trimmed_all(lines_of(text)),
{
    let lines = lines_of(text);
    let keep = contains_query(Seq::<char>::empty());
    assert forall|j: int| 0 <= j < lines.len() implies keep(#[trigger] lines[j]) by {
        lemma_empty_is_substring(lines[j]);
    }
    lemma_select_all(lines, keep);
}

/// Every selected line is a part of the text whose lines were offered.
pub proof fn lemma_selected_line_is_part_of_text(
    text: Seq<char>,
    keep: spec_fn(Seq<char>) -> bool,
    i: int,
)
    requires
        0 <= i < select(lines_of(text), keep).len(),
    ensures
        is_substring(select(lines_of(text), keep)[i], text),
{
    let lines = lines_of(text);
    let j = source_of(lines, keep, i);
    lemma_selected_line_has_source(lines, keep, i);
    lemma_trimmed(lines[j]);
    lemma_line_is_part_of_text(text, j);
    lemma_substring_is_transitive(trimmed(lines[j]), lines[j], text);
}

/// Whatever a search finds, with regard to case or without it, is a part
/// of the text that was searched.
pub proof fn lemma_found_line_is_part_of_text(query: Seq<char>, text: Seq<char>, i: int)
    ensures
        0 <= i < matching_lines(query, text).len() ==> is_substring(
            matching_lines(query, text)[i],
            text,
        ),
        0 <= i < matching_lines_ignoring_case(query, text).len() ==> is_substring(
            matching_lines_ignoring_case(query, text)[i],
            text,
        ),
{
    if 0 <= i < matching_lines(query, text).len() {
        lemma_selected_line_is_part_of_text(text, contains_query(query), i);
    }
    if 0 <= i < matching_lines_ignoring_case(query, text).len() {
        lemma_selected_line_is_part_of_text(text, contains_query_ignoring_case(query), i);
    }
}

/// Folding to lower case loses no occurrence of `query` in a line of
/// `text`: each line that contains the query still contains it after both
/// are folded.
pub open spec fn folding_keeps_matches(query: Seq<char>, text: Seq<char>) -> bool {
    forall|j: int|
        0 <= j < lines_of(text).len() && is_substring(query, #[trigger] lines_of(text)[j])
            ==> is_substring(lowercase(query), lowercase(lines_of(text)[j]))
}

/// Where folding to lower case loses no occurrence of the query, a search
/// without regard to case finds at least as many lines as a
/// case-sensitive one.
pub proof fn lemma_ignoring_case_finds_no_less(query: Seq<char>, text: Seq<char>)
    requires
        folding_keeps_matches(query, text),
    ensures
        matching_lines(query, text).len() <= matching_lines_ignoring_case(query, text).len(),
{
    lemma_wider_test_selects_no_less(
        lines_of(text),
        contains_query(query),
        contains_query_ignoring_case(query),
    );
}

/// Two case-sensitive searches for one query in one text find the same
/// lines in the same order.
pub proof fn lemma_search_is_repeatable(
    query: Seq<char>,
    text: Seq<char>,
    first: Vec<&str>,
    second: Vec<&str>,
)
    requires
        first.deep_view() == matching_lines(query, text),
        second.deep_view() == matching_lines(query, text),
    ensures
        first.deep_view() == second.deep_view(),
        first@.len() == second@.len(),
        forall|i: int| 0 <= i < first@.len() ==> first@[i]@ == second@[i]@,
{
    assert(first.deep_view().len() == first@.len());
    assert(second.deep_view().len() == second@.len());
    assert forall|i: int| 0 <= i < first@.len() implies first@[i]@ == second@[i]@ by {
        assert(first.deep_view()[i] == first@[i]@);
        assert(second.deep_view()[i] == second@[i]@);
    }
}

/// Two configurations built from one argument list and one state of the
/// switch are the same, and so are two failures.
pub proof fn lemma_configuration_is_repeatable(
    args: Seq<Seq<char>>,
    switch: Option<Seq<char>>,
    first: Result<Config, ArgumentError>,
    second: Result<Config, ArgumentError>,
)
    requires
        outcome(first) == configured(args, switch),
        outcome(second) == configured(args, switch),
    ensures
        outcome(first) == outcome(second),
{
}

} // verus!
