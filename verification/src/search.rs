//! Searching the text of files for a pattern, line by line.

use crate::collections::string_views;
use crate::error::AppError;
use crate::indexer::{excluded_by_user, is_excluded_by_user};
use crate::routes::search::{query_fault, validate_pattern, EMPTY_PATTERN};
use crate::symbols::regex_accepts;
use crate::text::{chars_of, concat, lines, split_lines, string_from_chars, texts};
use vstd::prelude::*;
use vstd::string::StringExecFns;

verus! {

/// Where `pattern`, which the regex engine accepts, matches in `text`, as
/// the engine finds it going through the text from left to right without
/// overlap: for each match the byte at which it starts and the byte before
/// which it ends.
pub uninterp spec fn regex_spans(pattern: Seq<char>, text: Seq<char>) -> Seq<(usize, usize)>;

/// `regex::Regex::new` on `pattern`, then `Regex::find_iter` on each of
/// `lines` with `Match::start` and `Match::end` of each match: for each line
/// the places where the pattern matches in it. `None` exactly if the
/// pattern is not accepted.
#[verifier::external_body]
fn spans_in_lines(pattern: &str, lines: &Vec<String>) -> (r: Option<Vec<Vec<(usize, usize)>>>)
    ensures
        r is Some == regex_accepts(pattern@),
        r matches Some(all) ==> all.len() == lines.len() && forall|i: int|
            0 <= i < lines.len() ==> regex_spans(pattern@, (#[trigger] lines[i])@) == all[i]@,
{
    match regex::Regex::new(pattern) {
        Ok(re) => Some(
            lines.iter().map(|l| re.find_iter(l).map(|m| (m.start(), m.end())).collect()).collect(),
        ),
        Err(_) => None,
    }
}

/// For each of `lines`, where `pattern` matches in it.
pub open spec fn line_spans(pattern: Seq<char>, lines: Seq<Seq<char>>) -> Seq<Seq<(usize, usize)>> {
    Seq::new(lines.len(), |i: int| regex_spans(pattern, lines[i]))
}

/// A place where the pattern matches.
pub struct GrepMatch {
    /// The file, as seen from the workspace.
    pub relative_path: String,
    /// The line, counted from 1.
    pub line_number: usize,
    /// The text of the line.
    pub line_text: String,
    /// The byte of the line at which the match starts.
    pub match_start: usize,
    /// The byte of the line before which the match ends.
    pub match_end: usize,
}

impl GrepMatch {
    /// The match at `span` in line number `line` of the file.
    pub open spec fn is_at(
        &self,
        relative_path: Seq<char>,
        line: int,
        text: Seq<char>,
        span: (usize, usize),
    ) -> bool {
        &&& self.relative_path@ == relative_path
        &&& self.line_number == line
        &&& self.line_text@ == text
        &&& self.match_start == span.0
        &&& self.match_end == span.1
    }
}

/// For each match in the first `count` lines, in the order of the lines and
/// within a line from left to right: the line, counted from 0, and the
/// place.
pub open spec fn places(spans: Seq<Seq<(usize, usize)>>, count: int) -> Seq<(int, (usize, usize))>
    decreases count,
{
    if count <= 0 {
        seq![]
    } else {
        places(spans, count - 1) + spans[count - 1].map_values(|s: (usize, usize)| (count - 1, s))
    }
}

/// Number of lines for which places are given.
pub open spec fn covered(lines: Seq<String>, spans: Seq<Vec<(usize, usize)>>) -> int {
    if spans.len() < lines.len() {
        spans.len() as int
    } else {
        lines.len() as int
    }
}

/// Lists the matches of a file given the places where the pattern matches
/// in each of its lines.
pub fn list_matches(relative_path: &str, lines: &Vec<String>, spans: &Vec<Vec<(usize, usize)>>) -> (out:
    Vec<GrepMatch>)
    ensures
        out.len() == places(spans.deep_view(), covered(lines@, spans@)).len(),
        forall|k: int|
            0 <= k < out.len() ==> (#[trigger] out[k]).is_at(
                relative_path@,
                places(spans.deep_view(), covered(lines@, spans@))[k].0 + 1,
                lines[places(spans.deep_view(), covered(lines@, spans@))[k].0]@,
                places(spans.deep_view(), covered(lines@, spans@))[k].1,
            ),
{
    let mut out: Vec<GrepMatch> = Vec::new();
    let ghost all = spans.deep_view();
    let count: usize = if spans.len() < lines.len() {
        spans.len()
    } else {
        lines.len()
    };
    let mut i: usize = 0;
    while i < count
        invariant
            i <= count,
            count <= lines.len(),
            count <= spans.len(),
            all == spans.deep_view(),
            out.len() == places(all, i as int).len(),
            forall|k: int|
                0 <= k < out.len() ==> (#[trigger] out[k]).is_at(
                    relative_path@,
                    places(all, i as int)[k].0 + 1,
                    lines[places(all, i as int)[k].0]@,
                    places(all, i as int)[k].1,
                ),
        decreases count - i,
    {
        let in_line = &spans[i];
        assert(all[i as int] == in_line@);
        let ghost before = places(all, i as int);
        let ghost start = out@;
        let mut j: usize = 0;
        while j < in_line.len()
            invariant
                j <= in_line.len(),
                i < lines.len(),
                start.len() == before.len(),
                out.len() == start.len() + j,
                forall|k: int| 0 <= k < start.len() ==> out[k] == start[k],
                forall|k: int|
                    0 <= k < j ==> (#[trigger] out[start.len() + k]).is_at(
                        relative_path@,
                        i + 1,
                        lines[i as int]@,
                        in_line[k],
                    ),
            decreases in_line.len() - j,
        {
            out.push(
                GrepMatch {
                    relative_path: String::from_str(relative_path),
                    line_number: i + 1,
                    line_text: lines[i].clone(),
                    match_start: in_line[j].0,
                    match_end: in_line[j].1,
                },
            );
            j += 1;
        }
        proof {
            let now = places(all, i + 1);
            assert(now == before + in_line@.map_values(|s: (usize, usize)| (i as int, s)));
            assert forall|k: int| 0 <= k < out.len() implies (#[trigger] out[k]).is_at(
                relative_path@,
                now[k].0 + 1,
                lines[now[k].0]@,
                now[k].1,
            ) by {
                if k < start.len() {
                    assert(out[k] == start[k]);
                    assert(now[k] == before[k]);
                } else {
                    assert(now[k] == (i as int, in_line[k - start.len()]));
                    assert(out[start.len() + (k - start.len())] == out[k]);
                }
            }
        }
        i += 1;
    }
    out
}

/// What stands before a pattern that is not accepted, in the text of the
/// error.
pub const INVALID_PATTERN: &'static str = "Invalid regex pattern: ";

/// Searches the text of a file for a pattern, line by line.
///
/// A pattern that is empty or too long is a bad request, and one that the
/// regex engine does not accept is a search error, whatever the content.
/// Otherwise every match is listed, line after line and within a line from
/// left to right.
pub fn grep_content(pattern: &str, relative_path: &str, content: &str) -> (r: Result<
    Vec<GrepMatch>,
    AppError,
>)
    ensures
        match query_fault(pattern@, EMPTY_PATTERN@, "Grep pattern"@) {
            Some(fault) => r matches Err(AppError::BadRequest(m)) && m@ == fault,
            None => if regex_accepts(pattern@) {
                r matches Ok(found) && {
                    let spans = line_spans(pattern@, lines(content@));
                    &&& found.len() == places(spans, spans.len() as int).len()
                    &&& forall|k: int|
                        0 <= k < found.len() ==> (#[trigger] found[k]).is_at(
                            relative_path@,
                            places(spans, spans.len() as int)[k].0 + 1,
                            lines(content@)[places(spans, spans.len() as int)[k].0],
                            places(spans, spans.len() as int)[k].1,
                        )
                }
            } else {
                r matches Err(AppError::SearchError(m)) && m@ == INVALID_PATTERN@ + pattern@
            },
        },
{
    match validate_pattern(pattern) {
        Err(e) => {
            return Err(e);
        },
        Ok(()) => {},
    }
    let chars = chars_of(content);
    let cut = split_lines(chars.as_slice());
    let mut text_lines: Vec<String> = Vec::new();
    let mut i: usize = 0;
    while i < cut.len()
        invariant
            i <= cut.len(),
            texts(cut@) == lines(content@),
            text_lines.len() == i,
            forall|k: int| 0 <= k < i ==> (#[trigger] text_lines[k])@ == lines(content@)[k],
        decreases cut.len() - i,
    {
        assert(texts(cut@)[i as int] == cut@[i as int]@);
        text_lines.push(string_from_chars(cut[i].as_slice()));
        i += 1;
    }
    assert(texts(cut@).len() == cut.len());
    match spans_in_lines(pattern, &text_lines) {
        None => Err(AppError::SearchError(concat(INVALID_PATTERN, pattern))),
        Some(spans) => {
            let found = list_matches(relative_path, &text_lines, &spans);
            proof {
                let all = spans.deep_view();
                assert(all.len() == lines(content@).len());
                assert forall|i: int| 0 <= i < all.len() implies all[i] == line_spans(
                    pattern@,
                    lines(content@),
                )[i] by {
                    assert(text_lines[i]@ == lines(content@)[i]);
                    assert(all[i] == spans[i]@);
                }
                assert(all =~= line_spans(pattern@, lines(content@)));
                lemma_places_in_range(all, all.len() as int);
                assert forall|k: int| 0 <= k < found.len() implies (#[trigger] found[k]).is_at(
                    relative_path@,
                    places(all, all.len() as int)[k].0 + 1,
                    lines(content@)[places(all, all.len() as int)[k].0],
                    places(all, all.len() as int)[k].1,
                ) by {
                    let line = places(all, all.len() as int)[k].0;
                    assert(0 <= line < all.len());
                    assert(text_lines[line]@ == lines(content@)[line]);
                }
            }
            Ok(found)
        },
    }
}

/// Every place is in one of the lines.
pub proof fn lemma_places_in_range(spans: Seq<Seq<(usize, usize)>>, count: int)
    requires
        0 <= count <= spans.len(),
    ensures
        forall|k: int|
            0 <= k < places(spans, count).len() ==> 0 <= (#[trigger] places(spans, count)[k]).0 < count,
    decreases count,
{
    if count > 0 {
        lemma_places_in_range(spans, count - 1);
        let before = places(spans, count - 1);
        let now = places(spans, count);
        assert forall|k: int| 0 <= k < now.len() implies 0 <= (#[trigger] now[k]).0 < count by {
            if k < before.len() {
                assert(now[k] == before[k]);
            }
        }
    }
}

/// Whether a file is searched, given the patterns of files to take in and
/// of files to leave out: some part of its path meets a pattern to take in,
/// unless there is none, and no part meets a pattern to leave out. The
/// patterns have the shapes of the user's exclusion patterns.
pub fn grep_includes(relative_path: &str, wanted: &[String], unwanted: &[String]) -> (r: bool)
    ensures
        r == ((wanted@.len() == 0 || excluded_by_user(relative_path@, string_views(wanted@)))
            && !excluded_by_user(relative_path@, string_views(unwanted@))),
{
    if wanted.len() > 0 && !is_excluded_by_user(relative_path, wanted) {
        return false;
    }
    !is_excluded_by_user(relative_path, unwanted)
}

/// Most characters of a snippet.
pub const SNIPPET_CHARS: usize = 200;

/// The start of a text of at most `max_chars` characters: what a result of
/// a search shows of a document.
pub fn snippet(content: &str, max_chars: usize) -> (out: String)
    ensures
        out@ == (if content@.len() <= max_chars {
            content@
        } else {
            content@.subrange(0, max_chars as int)
        }),
{
    let chars = chars_of(content);
    if chars.len() <= max_chars {
        return String::from_str(content);
    }
    string_from_chars(crate::text::copy_range(chars.as_slice(), 0, max_chars).as_slice())
}

} // verus!
