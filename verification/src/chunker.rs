//! Line-aware cutting of a text into overlapping chunks.
//!
//! A chunk is a run of whole lines. Sizes are counted in bytes of UTF-8, one
//! more per line for its line feed. A chunk is closed when the next line
//! would take it over `max_chars`; the next chunk starts with the tail of the
//! closed one whose size reaches `overlap`. The first line of a text, and the
//! first line after the overlap of every later chunk, is taken in whatever
//! its size: so a chunk can be longer than `max_chars`, where one line is,
//! or where the overlap and the line after it together are.

use crate::text::{
    byte_len, chars_of, join, join_chars, join_range, lemma_utf8_len_bound, lines, split_lines,
    string_from_chars, texts, utf8_len,
};
use vstd::prelude::*;

verus! {

// ---------------------------------------------------------------------------
// Model
// ---------------------------------------------------------------------------

/// Size of one line: its bytes and a line feed.
pub open spec fn line_cost(line: Seq<char>) -> nat {
    utf8_len(line) + 1
}

/// Size of the lines `from..to`.
pub open spec fn span_cost(lines: Seq<Seq<char>>, from: int, to: int) -> nat
    decreases to - from,
{
    if from >= to {
        0
    } else {
        span_cost(lines, from, to - 1) + line_cost(lines[to - 1])
    }
}

/// Where the chunk that starts at line `start` and already holds the lines
/// up to `from` ends: at the first line from `from` on that would take it
/// over `max_chars`, or at the end of the text.
pub open spec fn chunk_end(lines: Seq<Seq<char>>, start: int, from: int, max_chars: nat) -> int
    decreases lines.len() - from,
{
    if from >= lines.len() {
        lines.len() as int
    } else if span_cost(lines, start, from) + line_cost(lines[from]) > max_chars {
        from
    } else {
        chunk_end(lines, start, from + 1, max_chars)
    }
}

/// The last line `j` below `below` and not before `start` from which the
/// lines `j..end` reach `overlap` in size; `end` if there is none.
pub open spec fn overlap_scan(
    lines: Seq<Seq<char>>,
    start: int,
    end: int,
    below: int,
    overlap: nat,
) -> int
    decreases below - start,
{
    if below <= start {
        end
    } else if span_cost(lines, below - 1, end) >= overlap {
        below - 1
    } else {
        overlap_scan(lines, start, end, below - 1, overlap)
    }
}

/// First line of the chunk that follows the chunk `start..end`.
pub open spec fn overlap_start(lines: Seq<Seq<char>>, start: int, end: int, overlap: nat) -> int {
    overlap_scan(lines, start, end, end, overlap)
}

/// The character between the lines of a chunk.
pub open spec fn line_feed() -> Seq<char> {
    seq!['\n']
}

/// The chunks from the closed chunk `start..end` on, at most `budget` of
/// them. Each is its text and its first and last line, counted from 1.
pub open spec fn chunks_from(
    lines: Seq<Seq<char>>,
    start: int,
    end: int,
    budget: nat,
    max_chars: nat,
    overlap: nat,
) -> Seq<(Seq<char>, int, int)>
    decreases lines.len() - end,
{
    if budget == 0 {
        seq![]
    } else {
        let this = (join_range(lines, line_feed(), start, end), start + 1, end);
        if end >= lines.len() {
            seq![this]
        } else {
            let next_start = overlap_start(lines, start, end, overlap);
            let next_end = chunk_end(lines, next_start, end + 1, max_chars);
            if next_end <= end || next_end > lines.len() {
                seq![this]
            } else {
                seq![this] + chunks_from(
                    lines,
                    next_start,
                    next_end,
                    (budget - 1) as nat,
                    max_chars,
                    overlap,
                )
            }
        }
    }
}

/// The chunks of a text given as lines.
pub open spec fn chunks_of_lines(
    lines: Seq<Seq<char>>,
    max_chars: nat,
    overlap: nat,
    max_chunks: nat,
) -> Seq<(Seq<char>, int, int)> {
    if lines.len() == 0 {
        seq![]
    } else {
        chunks_from(lines, 0, chunk_end(lines, 0, 1, max_chars), max_chunks, max_chars, overlap)
    }
}

/// The chunks of `content`.
pub open spec fn chunks_of(content: Seq<char>, max_chars: nat, overlap: nat, max_chunks: nat) -> Seq<
    (Seq<char>, int, int),
> {
    chunks_of_lines(lines(content), max_chars, overlap, max_chunks)
}

/// What a list of chunks says, in the terms of the model.
pub open spec fn chunk_views(chunks: Seq<(String, usize, usize)>) -> Seq<(Seq<char>, int, int)> {
    chunks.map_values(|c: (String, usize, usize)| (c.0@, c.1 as int, c.2 as int))
}

// ---------------------------------------------------------------------------
// Facts about the model
// ---------------------------------------------------------------------------

proof fn lemma_span_cost_split(lines: Seq<Seq<char>>, from: int, mid: int, to: int)
    requires
        from <= mid <= to,
    ensures
        span_cost(lines, from, to) == span_cost(lines, from, mid) + span_cost(lines, mid, to),
    decreases to - mid,
{
    if mid < to {
        lemma_span_cost_split(lines, from, mid, to - 1);
    }
}

proof fn lemma_chunk_end_bounds(lines: Seq<Seq<char>>, start: int, from: int, max_chars: nat)
    requires
        from <= lines.len(),
    ensures
        from <= chunk_end(lines, start, from, max_chars) <= lines.len(),
    decreases lines.len() - from,
{
    if from < lines.len() && span_cost(lines, start, from) + line_cost(lines[from]) <= max_chars {
        lemma_chunk_end_bounds(lines, start, from + 1, max_chars);
    }
}

proof fn lemma_overlap_scan_bounds(
    lines: Seq<Seq<char>>,
    start: int,
    end: int,
    below: int,
    overlap: nat,
)
    requires
        start <= below <= end,
    ensures
        start <= overlap_scan(lines, start, end, below, overlap) <= end,
    decreases below - start,
{
    if below > start && span_cost(lines, below - 1, end) < overlap {
        lemma_overlap_scan_bounds(lines, start, end, below - 1, overlap);
    }
}

/// A chunk that ends before the text does is closed by the next line: with
/// that line it would be over `max_chars`. Every line that it took from
/// `from` on fitted.
pub proof fn lemma_chunk_end_closes(lines: Seq<Seq<char>>, start: int, from: int, max_chars: nat)
    requires
        0 <= from <= lines.len(),
    ensures
        chunk_end(lines, start, from, max_chars) < lines.len() ==> span_cost(
            lines,
            start,
            chunk_end(lines, start, from, max_chars),
        ) + line_cost(lines[chunk_end(lines, start, from, max_chars)]) > max_chars,
        forall|j: int|
            from <= j < chunk_end(lines, start, from, max_chars) ==> span_cost(lines, start, j)
                + line_cost(#[trigger] lines[j]) <= max_chars,
    decreases lines.len() - from,
{
    if from < lines.len() && span_cost(lines, start, from) + line_cost(lines[from]) <= max_chars {
        lemma_chunk_end_closes(lines, start, from + 1, max_chars);
    }
}

proof fn lemma_overlap_scan_reaches(
    lines: Seq<Seq<char>>,
    start: int,
    end: int,
    below: int,
    overlap: nat,
)
    requires
        start <= below <= end,
        forall|j: int| below <= j < end ==> span_cost(lines, j, end) < overlap,
    ensures
        overlap_scan(lines, start, end, below, overlap) < end ==> span_cost(
            lines,
            overlap_scan(lines, start, end, below, overlap),
            end,
        ) >= overlap,
        forall|j: int|
            overlap_scan(lines, start, end, below, overlap) < j < end ==> span_cost(lines, j, end)
                < overlap,
    decreases below - start,
{
    if below > start && span_cost(lines, below - 1, end) < overlap {
        lemma_overlap_scan_reaches(lines, start, end, below - 1, overlap);
    }
}

/// The lines that a chunk shares with the one before it reach `overlap` in
/// size, and without the first of them they would not.
pub proof fn lemma_overlap_reaches(lines: Seq<Seq<char>>, start: int, end: int, overlap: nat)
    requires
        start <= end,
    ensures
        overlap_start(lines, start, end, overlap) < end ==> span_cost(
            lines,
            overlap_start(lines, start, end, overlap),
            end,
        ) >= overlap,
        forall|j: int|
            overlap_start(lines, start, end, overlap) < j < end ==> span_cost(lines, j, end) < overlap,
{
    lemma_overlap_scan_reaches(lines, start, end, end, overlap);
}

/// What holds of the chunks that follow a closed chunk `start..end`.
proof fn lemma_chunks_from(
    lines: Seq<Seq<char>>,
    start: int,
    end: int,
    budget: nat,
    max_chars: nat,
    overlap: nat,
)
    requires
        0 <= start < end <= lines.len(),
    ensures
        ({
            let c = chunks_from(lines, start, end, budget, max_chars, overlap);
            &&& c.len() <= budget
            &&& budget > 0 ==> c.len() > 0 && c[0].1 == start + 1 && c[0].2 == end
            &&& budget > 0 ==> c.last().2 == lines.len() || c.len() == budget
            &&& forall|k: int|
                0 <= k < c.len() ==> start + 1 <= (#[trigger] c[k]).1 <= c[k].2 <= lines.len() && end
                    <= c[k].2
            &&& forall|k: int|
                0 <= k < c.len() ==> (#[trigger] c[k]).0 == join_range(
                    lines,
                    line_feed(),
                    c[k].1 - 1,
                    c[k].2,
                )
            &&& forall|k: int|
                0 <= k < c.len() - 1 ==> (#[trigger] c[k]).2 < c[k + 1].2 && c[k].1 <= c[k + 1].1
                    <= c[k].2 + 1
        }),
    decreases lines.len() - end,
{
    let c = chunks_from(lines, start, end, budget, max_chars, overlap);
    if budget > 0 && end < lines.len() {
        let next_start = overlap_start(lines, start, end, overlap);
        let next_end = chunk_end(lines, next_start, end + 1, max_chars);
        lemma_overlap_scan_bounds(lines, start, end, end, overlap);
        lemma_chunk_end_bounds(lines, next_start, end + 1, max_chars);
        let rest = chunks_from(lines, next_start, next_end, (budget - 1) as nat, max_chars, overlap);
        lemma_chunks_from(lines, next_start, next_end, (budget - 1) as nat, max_chars, overlap);
        let this = (join_range(lines, line_feed(), start, end), start + 1, end);
        assert(c == seq![this] + rest);
        assert(c[0] == this);
        assert forall|k: int| 1 <= k < c.len() implies #[trigger] c[k] == rest[k - 1] by {}
        assert forall|k: int| 0 <= k < c.len() implies start + 1 <= (#[trigger] c[k]).1 <= c[k].2
            <= lines.len() && end <= c[k].2 by {
            if k > 0 {
                assert(c[k] == rest[k - 1]);
            }
        }
        assert forall|k: int| 0 <= k < c.len() implies (#[trigger] c[k]).0 == join_range(
            lines,
            line_feed(),
            c[k].1 - 1,
            c[k].2,
        ) by {
            if k > 0 {
                assert(c[k] == rest[k - 1]);
            }
        }
        assert forall|k: int| 0 <= k < c.len() - 1 implies (#[trigger] c[k]).2 < c[k + 1].2
            && c[k].1 <= c[k + 1].1 <= c[k].2 + 1 by {
            assert(c[k + 1] == rest[k]);
            if k > 0 {
                assert(c[k] == rest[k - 1]);
            } else {
                assert(rest.len() > 0);
                assert(rest[0].1 == next_start + 1);
            }
        }
        if budget > 1 {
            assert(c.last() == rest.last());
        }
    }
}

/// Every chunk names a range of lines of the text: its first line is not
/// after its last, both counted from 1 and neither beyond the last line of
/// the text; its text is those lines, joined by line feeds. The first chunk
/// starts at line 1, no more than `max_chunks` chunks are made, and a text
/// with a line gives a chunk unless `max_chunks` is 0.
pub proof fn lemma_chunks_are_line_ranges(
    content: Seq<char>,
    max_chars: nat,
    overlap: nat,
    max_chunks: nat,
)
    ensures
        ({
            let c = chunks_of(content, max_chars, overlap, max_chunks);
            let n = lines(content).len();
            &&& c.len() <= max_chunks
            &&& (c.len() == 0 <==> n == 0 || max_chunks == 0)
            &&& c.len() > 0 ==> c[0].1 == 1
            &&& forall|k: int| 0 <= k < c.len() ==> 1 <= (#[trigger] c[k]).1 <= c[k].2 <= n
            &&& forall|k: int|
                0 <= k < c.len() ==> (#[trigger] c[k]).0 == join_range(
                    lines(content),
                    line_feed(),
                    c[k].1 - 1,
                    c[k].2,
                )
        }),
{
    let l = lines(content);
    if l.len() > 0 {
        lemma_chunk_end_bounds(l, 0, 1, max_chars);
        lemma_chunks_from(l, 0, chunk_end(l, 0, 1, max_chars), max_chunks, max_chars, overlap);
    }
}

/// Each chunk ends after the one before it, starts no earlier than it, and
/// leaves no line out between the two: it starts at most one line after the
/// end of the one before. Unless the limit `max_chunks` was reached, the last
/// chunk ends with the last line of the text.
pub proof fn lemma_chunks_advance_without_gaps(
    content: Seq<char>,
    max_chars: nat,
    overlap: nat,
    max_chunks: nat,
)
    ensures
        ({
            let c = chunks_of(content, max_chars, overlap, max_chunks);
            let n = lines(content).len();
            &&& forall|k: int|
                0 <= k < c.len() - 1 ==> (#[trigger] c[k]).2 < c[k + 1].2 && c[k].1 <= c[k + 1].1
                    <= c[k].2 + 1
            &&& c.len() > 0 ==> c.last().2 == n || c.len() == max_chunks
        }),
{
    let l = lines(content);
    if l.len() > 0 {
        lemma_chunk_end_bounds(l, 0, 1, max_chars);
        lemma_chunks_from(l, 0, chunk_end(l, 0, 1, max_chars), max_chunks, max_chars, overlap);
    }
}

/// The lines of chunk `k` that the chunk before it does not hold already.
pub open spec fn fresh_lines(lines: Seq<Seq<char>>, chunks: Seq<(Seq<char>, int, int)>, k: int) -> Seq<
    Seq<char>,
> {
    let own = lines.subrange(chunks[k].1 - 1, chunks[k].2);
    if k == 0 {
        own
    } else {
        own.skip(chunks[k - 1].2 - (chunks[k].1 - 1))
    }
}

/// The first `count` chunks put end to end, each without the lines it shares
/// with the chunk before it.
pub open spec fn stitched(lines: Seq<Seq<char>>, chunks: Seq<(Seq<char>, int, int)>, count: int) -> Seq<
    Seq<char>,
>
    decreases count,
{
    if count <= 0 {
        seq![]
    } else {
        stitched(lines, chunks, count - 1) + fresh_lines(lines, chunks, count - 1)
    }
}

proof fn lemma_stitched_prefix(content: Seq<char>, max_chars: nat, overlap: nat, max_chunks: nat, count: int)
    requires
        0 < count <= chunks_of(content, max_chars, overlap, max_chunks).len(),
    ensures
        stitched(lines(content), chunks_of(content, max_chars, overlap, max_chunks), count) == lines(
            content,
        ).subrange(0, chunks_of(content, max_chars, overlap, max_chunks)[count - 1].2),
    decreases count,
{
    let l = lines(content);
    let c = chunks_of(content, max_chars, overlap, max_chunks);
    lemma_chunks_are_line_ranges(content, max_chars, overlap, max_chunks);
    lemma_chunks_advance_without_gaps(content, max_chars, overlap, max_chunks);
    if count == 1 {
        assert(stitched(l, c, 0) =~= seq![]);
        assert(stitched(l, c, 1) =~= l.subrange(0, c[0].2));
    } else {
        lemma_stitched_prefix(content, max_chars, overlap, max_chunks, count - 1);
        let prev = c[count - 2];
        let this = c[count - 1];
        assert(prev.2 < this.2 && this.1 <= prev.2 + 1);
        assert(fresh_lines(l, c, count - 1) =~= l.subrange(prev.2, this.2));
        assert(l.subrange(0, prev.2) + l.subrange(prev.2, this.2) =~= l.subrange(0, this.2));
    }
}

/// Putting the chunks end to end, each without the lines it shares with the
/// chunk before it, gives back the lines of the text up to the end of the
/// last chunk: all of them, unless the limit `max_chunks` was reached.
pub proof fn lemma_chunks_reproduce_lines(
    content: Seq<char>,
    max_chars: nat,
    overlap: nat,
    max_chunks: nat,
)
    ensures
        ({
            let c = chunks_of(content, max_chars, overlap, max_chunks);
            let l = lines(content);
            &&& c.len() > 0 ==> stitched(l, c, c.len() as int) == l.subrange(0, c.last().2)
            &&& c.len() < max_chunks ==> stitched(l, c, c.len() as int) == l
        }),
{
    let c = chunks_of(content, max_chars, overlap, max_chunks);
    let l = lines(content);
    lemma_chunks_are_line_ranges(content, max_chars, overlap, max_chunks);
    lemma_chunks_advance_without_gaps(content, max_chars, overlap, max_chunks);
    if c.len() > 0 {
        lemma_stitched_prefix(content, max_chars, overlap, max_chunks, c.len() as int);
        if c.len() < max_chunks {
            assert(l.subrange(0, l.len() as int) =~= l);
        }
    } else {
        assert(stitched(l, c, 0) =~= seq![]);
        if c.len() < max_chunks {
            assert(l =~= seq![]);
        }
    }
}

/// A text whose lines fit into one chunk gives exactly one chunk, which
/// holds them all.
pub proof fn lemma_short_text_is_one_chunk(
    content: Seq<char>,
    max_chars: nat,
    overlap: nat,
    max_chunks: nat,
)
    requires
        lines(content).len() > 0,
        max_chunks > 0,
        span_cost(lines(content), 0, lines(content).len() as int) <= max_chars,
    ensures
        chunks_of(content, max_chars, overlap, max_chunks) == seq![
            (join(lines(content), line_feed()), 1int, lines(content).len() as int),
        ],
{
    let l = lines(content);
    lemma_chunk_end_whole(l, 1, max_chars);
}

proof fn lemma_chunk_end_whole(lines: Seq<Seq<char>>, from: int, max_chars: nat)
    requires
        0 <= from <= lines.len(),
        span_cost(lines, 0, lines.len() as int) <= max_chars,
    ensures
        chunk_end(lines, 0, from, max_chars) == lines.len(),
    decreases lines.len() - from,
{
    if from < lines.len() {
        lemma_span_cost_split(lines, 0, from + 1, lines.len() as int);
        lemma_chunk_end_whole(lines, from + 1, max_chars);
    }
}

// ---------------------------------------------------------------------------
// Sizes that cannot overflow
// ---------------------------------------------------------------------------

/// Sizes are added up to this cap and no further: every limit they are
/// compared with is a `usize` and so lies below it.
pub open spec fn cost_cap() -> nat {
    0x1_0000_0000_0000_0000_0000
}

/// A size as it is held: the size itself below the cap, else the cap.
pub open spec fn capped(cost: nat) -> nat {
    if cost < cost_cap() {
        cost
    } else {
        cost_cap()
    }
}

fn cost_of_line(line: &Vec<char>) -> (cost: u128)
    ensures
        cost == line_cost(line@),
        cost < cost_cap(),
{
    let slice = line.as_slice();
    let count: usize = slice.len();
    proof {
        lemma_utf8_len_bound(slice@);
        assert(utf8_len(slice@) <= 4 * count);
    }
    let bytes = byte_len(slice);
    bytes + 1
}

fn add_capped(a: u128, b: u128) -> (sum: u128)
    requires
        a <= cost_cap(),
        b < cost_cap(),
    ensures
        forall|x: nat| a == #[trigger] capped(x) ==> sum == capped(x + b as nat),
        sum <= cost_cap(),
{
    let cap: u128 = 0x1_0000_0000_0000_0000_0000;
    let sum: u128 = a + b;
    if sum < cap {
        sum
    } else {
        cap
    }
}

/// Extends the chunk that starts at `start` and holds the lines up to `from`
/// for as long as the next line fits. Returns the end and the size reached.
fn scan_end(lines: &Vec<Vec<char>>, start: usize, from: usize, cost: u128, max_chars: usize) -> (r: (
    usize,
    u128,
))
    requires
        start <= from <= lines.len(),
        cost == capped(span_cost(texts(lines@), start as int, from as int)),
    ensures
        r.0 == chunk_end(texts(lines@), start as int, from as int, max_chars as nat),
        from <= r.0 <= lines.len(),
        r.1 == capped(span_cost(texts(lines@), start as int, r.0 as int)),
{
    let mut end: usize = from;
    let mut cost: u128 = cost;
    while end < lines.len()
        invariant
            start <= from <= end <= lines.len(),
            cost == capped(span_cost(texts(lines@), start as int, end as int)),
            chunk_end(texts(lines@), start as int, from as int, max_chars as nat) == chunk_end(
                texts(lines@),
                start as int,
                end as int,
                max_chars as nat,
            ),
        decreases lines.len() - end,
    {
        let next = cost_of_line(&lines[end]);
        assert(texts(lines@)[end as int] == lines@[end as int]@);
        let sum = add_capped(cost, next);
        assert(sum == capped(span_cost(texts(lines@), start as int, end as int) + next as nat));
        if sum > max_chars as u128 {
            return (end, cost);
        }
        cost = sum;
        end += 1;
    }
    (end, cost)
}

/// Finds where the chunk after `start..end` starts. Returns that line and
/// the size of the lines kept.
fn scan_overlap(lines: &Vec<Vec<char>>, start: usize, end: usize, overlap: usize) -> (r: (
    usize,
    u128,
))
    requires
        start <= end <= lines.len(),
    ensures
        r.0 == overlap_start(texts(lines@), start as int, end as int, overlap as nat),
        start <= r.0 <= end,
        r.1 == capped(span_cost(texts(lines@), r.0 as int, end as int)),
{
    let mut below: usize = end;
    let mut cost: u128 = 0;
    while below > start
        invariant
            start <= below <= end <= lines.len(),
            cost == capped(span_cost(texts(lines@), below as int, end as int)),
            overlap_start(texts(lines@), start as int, end as int, overlap as nat) == overlap_scan(
                texts(lines@),
                start as int,
                end as int,
                below as int,
                overlap as nat,
            ),
        decreases below - start,
    {
        let line = cost_of_line(&lines[below - 1]);
        assert(texts(lines@)[below - 1] == lines@[below - 1]@);
        proof {
            lemma_span_cost_split(texts(lines@), below - 1, below as int, end as int);
            assert(span_cost(texts(lines@), below - 1, below as int) == line_cost(
                texts(lines@)[below - 1],
            )) by {
                assert(span_cost(texts(lines@), below - 1, below - 1) == 0);
            }
        }
        let sum = add_capped(cost, line);
        assert(sum == capped(span_cost(texts(lines@), below as int, end as int) + line as nat));
        below -= 1;
        cost = sum;
        if cost >= overlap as u128 {
            return (below, cost);
        }
    }
    (end, 0)
}

// ---------------------------------------------------------------------------
// The chunker
// ---------------------------------------------------------------------------

/// Cuts `content` into chunks of whole lines: `(text, first line, last
/// line)`, lines counted from 1. No more than `max_chunks` chunks are made.
/// Every chunk takes in at least one line that the chunk before it did not
/// hold, whatever the size of that line; further lines are taken in only
/// while the chunk stays within `max_chars`. A chunk is therefore longer
/// than `max_chars` only where its overlap and that one line are.
pub fn chunk_text(content: &str, max_chars: usize, overlap: usize, max_chunks: usize) -> (out: Vec<
    (String, usize, usize),
>)
    ensures
        chunk_views(out@) == chunks_of(content@, max_chars as nat, overlap as nat, max_chunks as nat),
{
    let mut out: Vec<(String, usize, usize)> = Vec::new();
    let chars = chars_of(content);
    let lines = split_lines(chars.as_slice());
    let ghost model = texts(lines@);
    if lines.len() == 0 {
        assert(chunk_views(out@) =~= seq![]);
        return out;
    }
    if max_chunks == 0 {
        assert(chunk_views(out@) =~= seq![]);
        return out;
    }
    let sep: Vec<char> = vec!['\n'];
    assert(sep@ =~= line_feed());
    let first = cost_of_line(&lines[0]);
    assert(model[0] == lines@[0]@);
    assert(span_cost(model, 0, 1) == line_cost(model[0])) by {
        assert(span_cost(model, 0, 0) == 0);
    }
    let (first_end, _) = scan_end(&lines, 0, 1, first, max_chars);
    let mut start: usize = 0;
    let mut end: usize = first_end;
    loop
        invariant_except_break
            lines.len() > 0,
            model == texts(lines@),
            sep@ == line_feed(),
            start < end <= lines.len(),
            out.len() < max_chunks,
            chunks_of(content@, max_chars as nat, overlap as nat, max_chunks as nat) == chunk_views(
                out@,
            ) + chunks_from(
                model,
                start as int,
                end as int,
                (max_chunks - out.len()) as nat,
                max_chars as nat,
                overlap as nat,
            ),
        ensures
            chunk_views(out@) == chunks_of(
                content@,
                max_chars as nat,
                overlap as nat,
                max_chunks as nat,
            ),
        decreases lines.len() - end,
    {
        let ghost before = out@;
        let ghost rest = chunks_from(
            model,
            start as int,
            end as int,
            (max_chunks - out.len()) as nat,
            max_chars as nat,
            overlap as nat,
        );
        let body = join_chars(&lines, sep.as_slice(), start, end);
        let text = string_from_chars(body.as_slice());
        out.push((text, start + 1, end));
        let ghost this = (join_range(model, line_feed(), start as int, end as int), start + 1, end as int);
        assert(chunk_views(out@) =~= chunk_views(before).push(this));
        if end >= lines.len() {
            assert(rest =~= seq![this]);
            assert(chunk_views(before) + seq![this] =~= chunk_views(before).push(this));
            break;
        }
        let (next_start, kept) = scan_overlap(&lines, start, end, overlap);
        let line = cost_of_line(&lines[end]);
        assert(model[end as int] == lines@[end as int]@);
        let with_line = add_capped(kept, line);
        proof {
            assert(span_cost(model, next_start as int, end + 1) == span_cost(
                model,
                next_start as int,
                end as int,
            ) + line_cost(model[end as int]));
        }
        let (next_end, _) = scan_end(&lines, next_start, end + 1, with_line, max_chars);
        assert(rest =~= seq![this] + chunks_from(
            model,
            next_start as int,
            next_end as int,
            (max_chunks - before.len() - 1) as nat,
            max_chars as nat,
            overlap as nat,
        ));
        if out.len() >= max_chunks {
            assert(chunks_from(
                model,
                next_start as int,
                next_end as int,
                0,
                max_chars as nat,
                overlap as nat,
            ) =~= seq![]);
            assert(chunk_views(before) + seq![this] =~= chunk_views(before).push(this));
            break;
        }
        assert(chunk_views(before) + (seq![this] + chunks_from(
            model,
            next_start as int,
            next_end as int,
            (max_chunks - before.len() - 1) as nat,
            max_chars as nat,
            overlap as nat,
        )) =~= chunk_views(before).push(this) + chunks_from(
            model,
            next_start as int,
            next_end as int,
            (max_chunks - before.len() - 1) as nat,
            max_chars as nat,
            overlap as nat,
        ));
        start = next_start;
        end = next_end;
    }
    out
}

} // verus!
