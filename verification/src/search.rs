//! The search itself: the lines of a text that contain a query, each
//! trimmed, in the order in which they stand in the text.

use vstd::prelude::*;
use vstd::string::*;
use crate::case::{lowercase, to_lowercase};
use crate::config::{Config, ConfigView};
use crate::laws::lemma_empty_query_finds_every_line;
use crate::lines::{lines_of, split_first_line};
use crate::pattern::{chars_of, is_substring, occurs_in};
use crate::whitespace::{trim, trimmed};

verus! {

/// The test that a line passes when it contains `query` as it is written.
pub open spec fn contains_query(query: Seq<char>) -> spec_fn(Seq<char>) -> bool {
    |line: Seq<char>| is_substring(query, line)
}

/// The test that a line passes when its lower-case form contains the
/// lower-case form of `query`.
pub open spec fn contains_query_ignoring_case(query: Seq<char>) -> spec_fn(Seq<char>) -> bool {
    |line: Seq<char>| is_substring(lowercase(query), lowercase(line))
}

/// Each of `lines`, trimmed.
pub open spec fn trimmed_all(lines: Seq<Seq<char>>) -> Seq<Seq<char>> {
    lines.map_values(|line: Seq<char>| trimmed(line))
}

/// The lines among `lines` that pass `keep`, each trimmed, in their order.
pub open spec fn select(lines: Seq<Seq<char>>, keep: spec_fn(Seq<char>) -> bool) -> Seq<
    Seq<char>,
> {
    trimmed_all(lines.filter(keep))
}

/// What a case-sensitive search for `query` finds in `text`.
pub open spec fn matching_lines(query: Seq<char>, text: Seq<char>) -> Seq<Seq<char>> {
    select(lines_of(text), contains_query(query))
}

/// What a search for `query` without regard to case finds in `text`.
pub open spec fn matching_lines_ignoring_case(query: Seq<char>, text: Seq<char>) -> Seq<
    Seq<char>,
> {
    select(lines_of(text), contains_query_ignoring_case(query))
}

/// The test that `scan` applies to a line.
pub open spec fn line_test(query: Seq<char>, ignore_case: bool) -> spec_fn(Seq<char>) -> bool {
    if ignore_case {
        contains_query_ignoring_case(query)
    } else {
        contains_query(query)
    }
}

/// Selecting from one more line adds that line, trimmed, where it passes.
pub proof fn lemma_select_push(
    lines: Seq<Seq<char>>,
    line: Seq<char>,
    keep: spec_fn(Seq<char>) -> bool,
)
    ensures
        select(lines.push(line), keep) == if keep(line) {
            select(lines, keep).push(trimmed(line))
        } else {
            select(lines, keep)
        },
{
    lines.lemma_filter_push(line, keep);
    if keep(line) {
        assert(select(lines.push(line), keep) =~= select(lines, keep).push(trimmed(line)));
    }
}

/// Whether `line` holds `key`: as it is written, or, where `ignore_case`
/// is set, in its lower-case form.
pub fn line_holds(line: &str, key: &[char], ignore_case: bool) -> (hit: bool)
    ensures
        hit == is_substring(
            key@,
            if ignore_case {
                lowercase(line@)
            } else {
                line@
            },
        ),
{
    if ignore_case {
        let folded = to_lowercase(line);
        let chars = chars_of(folded.as_str());
        occurs_in(key, chars.as_slice())
    } else {
        let chars = chars_of(line);
        occurs_in(key, chars.as_slice())
    }
}

/// Walks `content` line by line and keeps the trimmed lines that contain
/// `query`, after folding both to lower case where `ignore_case` is set.
fn scan<'a>(query: &str, content: &'a str, ignore_case: bool) -> (found: Vec<&'a str>)
    ensures
        found.deep_view() == select(lines_of(content@), line_test(query@, ignore_case)),
{
    let key = if ignore_case {
        let folded = to_lowercase(query);
        chars_of(folded.as_str())
    } else {
        chars_of(query)
    };
    let mut found: Vec<&'a str> = Vec::new();
    let mut rest = content;
    let ghost keep = line_test(query@, ignore_case);
    let ghost mut seen: Seq<Seq<char>> = Seq::empty();
    proof {
        assert(found.deep_view() =~= select(seen, keep));
    }
    while !rest.is_empty()
        invariant
            keep == line_test(query@, ignore_case),
            key@ == if ignore_case {
                lowercase(query@)
            } else {
                query@
            },
            lines_of(content@) == seen + lines_of(rest@),
            found.deep_view() == select(seen, keep),
        decreases rest@.len(),
    {
        let (line, tail) = split_first_line(rest);
        proof {
            lemma_select_push(seen, line@, keep);
            assert(seen + (seq![line@] + lines_of(tail@)) =~= seen.push(line@) + lines_of(tail@));
        }
        if line_holds(line, key.as_slice(), ignore_case) {
            let ghost before = found.deep_view();
            found.push(trim(line));
            proof {
                assert(found.deep_view() =~= before.push(trimmed(line@)));
            }
        }
        proof {
            seen = seen.push(line@);
        }
        rest = tail;
    }
    proof {
        assert(seen + lines_of(rest@) =~= seen);
    }
    found
}

/// The lines of `content` that contain `query`, each without the white
/// space at its ends, in the order in which they stand in `content`. Every
/// line contains the empty query.
pub fn search<'a>(query: &str, content: &'a str) -> (found: Vec<&'a str>)
    ensures
        found.deep_view() == matching_lines(query@, content@),
        query@.len() == 0 ==> found.deep_view() == trimmed_all(lines_of(content@)),
{
    proof {
        if query@.len() == 0 {
            assert(query@ =~= Seq::<char>::empty());
            lemma_empty_query_finds_every_line(content@);
        }
    }
    scan(query, content, false)
}

/// The lines of `content` whose lower-case form contains the lower-case
/// form of `query`, each as it is written in `content` but without the
/// white space at its ends, in the order in which they stand in `content`.
pub fn search_case_insensitive<'a>(query: &str, content: &'a str) -> (found: Vec<&'a str>)
    ensures
        found.deep_view() == matching_lines_ignoring_case(query@, content@),
{
    scan(query, content, true)
}

/// What the search that `config` asks for finds in `text`.
pub open spec fn configured_matches(config: ConfigView, text: Seq<char>) -> Seq<Seq<char>> {
    if config.case_sensitive {
        matching_lines(config.query, text)
    } else {
        matching_lines_ignoring_case(config.query, text)
    }
}

/// Searches `content`, the text of the file that `config` names, for the
/// query of `config`, with regard to case or without it as `config` says.
/// The lines come back in the order in which they are to be printed.
pub fn run<'a>(config: &Config, content: &'a str) -> (found: Vec<&'a str>)
    ensures
        found.deep_view() == configured_matches(config@, content@),
{
    if config.case_sensitive {
        search(config.query.as_str(), content)
    } else {
        search_case_insensitive(config.query.as_str(), content)
    }
}

} // verus!
