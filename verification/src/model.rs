//! The mathematical model of line boundaries: where a line starts, where
//! its content ends (terminators excluded, CRLF normalized), and the table
//! of all line spans of a byte sequence.

use vstd::prelude::*;

verus! {

use crate::LF_BYTE;
use crate::CR_BYTE;

/// The position of the line feed that terminates the line whose content
/// begins at `from`, or the length of the data when no line feed follows.
pub open spec fn raw_line_end(data: Seq<u8>, from: int) -> int
    decreases data.len() - from,
{
    if from >= data.len() || from < 0 {
        data.len() as int
    } else if data[from] == LF_BYTE {
        from
    } else {
        raw_line_end(data, from + 1)
    }
}

/// The end of the content of the line starting at `start`: the position of
/// the terminating line feed, moved one back when a carriage return
/// directly precedes it, or the end of the data for the final line.
pub open spec fn line_end(data: Seq<u8>, start: int) -> int {
    let r = raw_line_end(data, start);
    if r < data.len() && r > start && data[r - 1] == CR_BYTE {
        r - 1
    } else {
        r
    }
}

/// `p` begins a line: it is the first position, or directly follows a
/// line feed, and some byte lies at it.
pub open spec fn is_line_start(data: Seq<u8>, p: int) -> bool {
    0 <= p < data.len() && (p == 0 || data[p - 1] == LF_BYTE)
}

/// The start of the last line that begins strictly before `origin`:
/// the greatest line start at or below `origin - 1`.
pub open spec fn prev_line_start(data: Seq<u8>, origin: int) -> int
    decreases origin,
{
    if origin <= 1 {
        0
    } else if data[origin - 2] == LF_BYTE {
        origin - 1
    } else {
        prev_line_start(data, origin - 1)
    }
}

/// The start of the line that follows the line whose content ends at
/// `from`: one past the next line feed, or the length of the data when no
/// line follows. From `from == 0` the first line itself is next: a cursor
/// there has not yet consumed any line.
pub open spec fn next_line_start(data: Seq<u8>, from: int) -> int {
    if from == 0 {
        0
    } else {
        let r = raw_line_end(data, from);
        if r == data.len() {
            r
        } else {
            r + 1
        }
    }
}

/// All line spans `(start, content_end)` of the data from position
/// `start` on, in file order.
pub open spec fn line_spans_from(data: Seq<u8>, start: int) -> Seq<(int, int)>
    decreases data.len() - start
        via line_spans_from_decreases
{
    if start >= data.len() || start < 0 {
        Seq::empty()
    } else {
        let r = raw_line_end(data, start);
        let rest = if r == data.len() {
            Seq::<(int, int)>::empty()
        } else {
            line_spans_from(data, r + 1)
        };
        seq![(start, line_end(data, start))] + rest
    }
}

#[via_fn]
proof fn line_spans_from_decreases(data: Seq<u8>, start: int) {
    if 0 <= start < data.len() {
        lemma_raw_line_end(data, start);
    }
}

/// The table of all line spans of the data, in file order.
pub open spec fn line_spans(data: Seq<u8>) -> Seq<(int, int)> {
    line_spans_from(data, 0)
}

/// `raw_line_end` finds the first line feed at or after `from`.
pub proof fn lemma_raw_line_end(data: Seq<u8>, from: int)
    requires
        0 <= from <= data.len(),
    ensures
        from <= raw_line_end(data, from) <= data.len(),
        raw_line_end(data, from) < data.len() ==> data[raw_line_end(data, from)] == LF_BYTE,
        forall|j: int| from <= j < raw_line_end(data, from) ==> data[j] != LF_BYTE,
    decreases data.len() - from,
{
    if from < data.len() && data[from] != LF_BYTE {
        lemma_raw_line_end(data, from + 1);
    }
}

/// Scanning for the next line feed from anywhere between a position and
/// the line feed it finds lands on that same line feed.
pub proof fn lemma_raw_line_end_skip(data: Seq<u8>, from: int, mid: int)
    requires
        0 <= from <= mid <= raw_line_end(data, from),
        mid <= data.len(),
    ensures
        raw_line_end(data, mid) == raw_line_end(data, from),
    decreases mid - from,
{
    if from < mid {
        lemma_raw_line_end(data, from);
        lemma_raw_line_end_skip(data, from + 1, mid);
    }
}

/// A position where scanning stops is the first line feed: uniqueness of
/// `raw_line_end`.
pub proof fn lemma_raw_line_end_unique(data: Seq<u8>, from: int, j: int)
    requires
        0 <= from <= j <= data.len(),
        forall|q: int| from <= q < j ==> data[q] != LF_BYTE,
        j == data.len() || data[j] == LF_BYTE,
    ensures
        raw_line_end(data, from) == j,
    decreases j - from,
{
    if from < j {
        lemma_raw_line_end_unique(data, from + 1, j);
    }
}

/// Content bounds: the content of a line lies between its start and its
/// raw end and contains no line feed.
pub proof fn lemma_line_end(data: Seq<u8>, start: int)
    requires
        0 <= start <= data.len(),
    ensures
        start <= line_end(data, start) <= raw_line_end(data, start) <= data.len(),
        forall|j: int| start <= j < line_end(data, start) ==> data[j] != LF_BYTE,
{
    lemma_raw_line_end(data, start);
}

/// `prev_line_start` returns a genuine line start, below `origin`, with no
/// other line start in between.
pub proof fn lemma_prev_line_start(data: Seq<u8>, origin: int)
    requires
        1 <= origin <= data.len(),
    ensures
        0 <= prev_line_start(data, origin) <= origin - 1,
        is_line_start(data, prev_line_start(data, origin)),
        forall|p: int| prev_line_start(data, origin) < p <= origin - 1 ==> #[trigger] data[p - 1] != LF_BYTE,
    decreases origin,
{
    if origin <= 1 || data[origin - 2] == LF_BYTE {
    } else {
        lemma_prev_line_start(data, origin - 1);
    }
}

/// A line start with no further line start before `origin` is exactly what
/// the backward search finds.
pub proof fn lemma_prev_line_start_unique(data: Seq<u8>, origin: int, s: int)
    requires
        1 <= origin <= data.len(),
        is_line_start(data, s),
        s <= origin - 1,
        forall|p: int| s < p <= origin - 1 ==> #[trigger] data[p - 1] != LF_BYTE,
    ensures
        prev_line_start(data, origin) == s,
{
    lemma_prev_line_start(data, origin);
    let r = prev_line_start(data, origin);
    if r < s {
        assert(data[s - 1] != LF_BYTE);
        assert(false);
    }
    if r > s {
        assert(data[r - 1] != LF_BYTE);
        assert(false);
    }
}

/// The structure of the span table built from a position: it is nonempty,
/// begins there, its spans are genuine lines in order, consecutive spans
/// are separated by exactly one line feed, and the last span runs to the
/// end of the data or to a final terminating line feed.
pub proof fn lemma_line_spans_from(data: Seq<u8>, start: int)
    requires
        0 <= start < data.len(),
    ensures
        ({
            let sp = line_spans_from(data, start);
            &&& sp.len() >= 1
            &&& sp[0].0 == start
            &&& forall|k: int| 0 <= k < sp.len() ==> start <= (#[trigger] sp[k]).0 < data.len()
            &&& forall|k: int| 0 <= k < sp.len() ==> (#[trigger] sp[k]).1 == line_end(data, sp[k].0)
            &&& forall|k: int| 0 <= k < sp.len() ==> (#[trigger] sp[k]).0 <= sp[k].1 <= data.len()
            &&& forall|k: int| 1 <= k < sp.len() ==> (#[trigger] sp[k]).0 == raw_line_end(
                data,
                sp[k - 1].0,
            ) + 1
            &&& forall|k: int| 1 <= k < sp.len() ==> data[(#[trigger] sp[k]).0 - 1] == LF_BYTE
            &&& raw_line_end(data, sp[sp.len() - 1].0) >= data.len() - 1
        }),
    decreases data.len() - start,
{
    lemma_raw_line_end(data, start);
    lemma_line_end(data, start);
    let r = raw_line_end(data, start);
    let sp = line_spans_from(data, start);
    if r < data.len() && r + 1 < data.len() {
        lemma_line_spans_from(data, r + 1);
        let rest = line_spans_from(data, r + 1);
        assert forall|k: int| 1 <= k < sp.len() implies (#[trigger] sp[k]).0 == raw_line_end(
            data,
            sp[k - 1].0,
        ) + 1 by {
            if k >= 2 {
                assert(sp[k] == rest[k - 1]);
                assert(sp[k - 1] == rest[k - 2]);
            } else {
                assert(sp[1] == rest[0]);
            }
        }
        assert(sp[sp.len() - 1] == rest[rest.len() - 1]);
    } else {
        assert(sp.len() == 1);
    }
}

/// Every line start at or after `start` appears in the span table built
/// from `start`.
pub proof fn lemma_start_in_spans(data: Seq<u8>, start: int, p: int)
    requires
        0 <= start <= p < data.len(),
        p == start || data[p - 1] == LF_BYTE,
    ensures
        exists|k: int|
            0 <= k < line_spans_from(data, start).len() && (#[trigger] line_spans_from(
                data,
                start,
            )[k]).0 == p,
    decreases data.len() - start,
{
    let sp = line_spans_from(data, start);
    if p == start {
        assert(sp[0].0 == p);
    } else {
        lemma_raw_line_end(data, start);
        let r = raw_line_end(data, start);
        assert(p - 1 >= r);
        lemma_start_in_spans(data, r + 1, p);
        let rest = line_spans_from(data, r + 1);
        let k0 = choose|k: int| 0 <= k < rest.len() && (#[trigger] rest[k]).0 == p;
        assert(sp[k0 + 1] == rest[k0]);
        assert(sp[k0 + 1].0 == p);
    }
}

/// Span starts are strictly increasing, so each line start occurs at one
/// position of the table only.
pub proof fn lemma_spans_increasing(data: Seq<u8>, k1: int, k2: int)
    requires
        0 <= k1 < k2 < line_spans(data).len(),
        data.len() >= 1,
    ensures
        line_spans(data)[k1].0 < line_spans(data)[k2].0,
    decreases k2 - k1,
{
    let sp = line_spans(data);
    if k2 == k1 + 1 {
        lemma_line_spans_from(data, 0);
        lemma_raw_line_end(data, sp[k1].0);
        assert(sp[k2].0 == raw_line_end(data, sp[k1].0) + 1);
    } else {
        lemma_spans_increasing(data, k1, k2 - 1);
        lemma_spans_increasing(data, k2 - 1, k2);
    }
}

/// Everything the index builder needs of span `k` in one place: its
/// bounds, its content end, where the next span starts, and that its
/// start differs from every earlier span's start.
pub proof fn lemma_span_at(data: Seq<u8>, k: int)
    requires
        data.len() >= 1,
        0 <= k < line_spans(data).len(),
    ensures
        ({
            let sp = line_spans(data);
            &&& 0 <= sp[k].0 <= sp[k].1 <= data.len()
            &&& sp[k].0 < data.len()
            &&& sp[k].1 == line_end(data, sp[k].0)
            &&& (k + 1 < sp.len() ==> sp[k + 1].0 == raw_line_end(data, sp[k].0) + 1 && sp[k
                + 1].0 < data.len())
            &&& (k + 1 == sp.len() ==> raw_line_end(data, sp[k].0) >= data.len() - 1)
            &&& sp[0].0 == 0
            &&& (forall|j: int| 0 <= j < k ==> 0 <= (#[trigger] sp[j]).0 < sp[k].0)
        }),
{
    lemma_line_spans_from(data, 0);
    assert forall|j: int| 0 <= j < k implies 0 <= (#[trigger] line_spans(data)[j]).0 < line_spans(
        data,
    )[k].0 by {
        lemma_spans_increasing(data, j, k);
    }
}

/// Stepping forward from the content end of line `k` lands exactly on
/// line `k + 1`, or past the data when line `k` is the last. The line's
/// content end must not sit at position 0: a cursor there reads as the
/// beginning of the file.
pub proof fn lemma_next_step(data: Seq<u8>, k: int)
    requires
        data.len() >= 1,
        0 <= k < line_spans(data).len(),
        line_spans(data)[k].1 >= 1,
    ensures
        ({
            let sp = line_spans(data);
            &&& (k + 1 < sp.len() ==> next_line_start(data, sp[k].1) == sp[k + 1].0)
            &&& (k + 1 == sp.len() ==> next_line_start(data, sp[k].1) == data.len())
        }),
{
    lemma_line_spans_from(data, 0);
    let sp = line_spans(data);
    let s = sp[k].0;
    let e = sp[k].1;
    let r = raw_line_end(data, s);
    lemma_raw_line_end(data, s);
    lemma_raw_line_end_skip(data, s, e);
    assert(raw_line_end(data, e) == r);
    if k + 1 < sp.len() {
        assert(sp[k + 1].0 == r + 1);
        assert(sp[k + 1].0 < data.len());
    } else {
        assert(r >= data.len() - 1);
    }
}

/// Stepping backward from the start of line `k` lands exactly on line
/// `k - 1`.
pub proof fn lemma_prev_step(data: Seq<u8>, k: int)
    requires
        data.len() >= 1,
        1 <= k < line_spans(data).len(),
    ensures
        prev_line_start(data, line_spans(data)[k].0) == line_spans(data)[k - 1].0,
{
    lemma_line_spans_from(data, 0);
    let sp = line_spans(data);
    let s = sp[k].0;
    let prev = sp[k - 1].0;
    let r = raw_line_end(data, prev);
    lemma_raw_line_end(data, prev);
    assert(s == r + 1);
    assert forall|p: int| prev < p <= s - 1 implies #[trigger] data[p - 1] != LF_BYTE by {
        assert(prev <= p - 1 < r);
    }
    if k == 1 {
        lemma_prev_line_start_unique(data, s, prev);
    } else {
        lemma_prev_line_start_unique(data, s, prev);
    }
}

/// Stepping backward from the end of the data lands on the last line.
pub proof fn lemma_prev_from_eof(data: Seq<u8>)
    requires
        data.len() >= 1,
    ensures
        line_spans(data).len() >= 1,
        prev_line_start(data, data.len() as int) == line_spans(data)[line_spans(data).len() - 1].0,
{
    lemma_line_spans_from(data, 0);
    let sp = line_spans(data);
    let s = sp[sp.len() - 1].0;
    let r = raw_line_end(data, s);
    lemma_raw_line_end(data, s);
    assert forall|p: int| s < p <= data.len() - 1 implies #[trigger] data[p - 1] != LF_BYTE by {
        assert(s <= p - 1 < r);
    }
    lemma_prev_line_start_unique(data, data.len() as int, s);
}

/// Every byte offset lies within exactly one line; the backward search
/// from just past the offset finds that line's start.
pub proof fn lemma_offset_line(data: Seq<u8>, off: int)
    requires
        0 <= off < data.len(),
    ensures
        ({
            let s = prev_line_start(data, off + 1);
            exists|k: int|
                0 <= k < line_spans(data).len() && (#[trigger] line_spans(data)[k]).0 == s
        }),
{
    lemma_prev_line_start(data, off + 1);
    let s = prev_line_start(data, off + 1);
    lemma_start_in_spans(data, 0, s);
    let k0 = choose|k: int|
        0 <= k < line_spans_from(data, 0).len() && (#[trigger] line_spans_from(data, 0)[k]).0
            == s;
    assert((line_spans(data)[k0]).0 == s);
}

} // verus!
