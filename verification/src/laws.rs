//! The navigation laws: what holds of forward and backward iteration, of
//! repeated `current_line` resolution, and of the content every call
//! returns, stated over the line-span model the reader's contracts use.

use vstd::prelude::*;

verus! {

use crate::LF_BYTE;
use crate::CR_BYTE;
use crate::model::line_end;
use crate::model::raw_line_end;
use crate::model::prev_line_start;
use crate::model::next_line_start;
use crate::model::line_spans;
use crate::model::lemma_raw_line_end;
use crate::model::lemma_line_end;
use crate::model::lemma_line_spans_from;
use crate::model::lemma_next_step;
use crate::model::lemma_prev_step;
use crate::model::lemma_prev_from_eof;
use crate::reader::current_target;

/// Iterating `next_line` from the beginning of the source yields every
/// line in file order, then one empty result with the cursor at the end:
/// the first step lands on line 0, the step from line `k` lands on line
/// `k + 1`, and the step from the last line lands past the data. Stated
/// for sources whose first line is not empty: a leading empty line is
/// indistinguishable from the beginning-of-source cursor.
pub proof fn lemma_forward_iteration(data: Seq<u8>, k: int)
    requires
        data.len() >= 1,
        line_end(data, 0) != 0,
        0 <= k < line_spans(data).len(),
    ensures
        next_line_start(data, 0) == line_spans(data)[0].0,
        line_spans(data)[0] == (0int, line_end(data, 0)),
        k + 1 < line_spans(data).len() ==> next_line_start(data, line_spans(data)[k].1)
            == line_spans(data)[k + 1].0 && line_spans(data)[k + 1].1 == line_end(
            data,
            line_spans(data)[k + 1].0,
        ),
        k + 1 == line_spans(data).len() ==> next_line_start(data, line_spans(data)[k].1)
            == data.len(),
{
    lemma_line_spans_from(data, 0);
    lemma_raw_line_end(data, 0);
    if line_spans(data)[k].1 == 0 {
        lemma_line_end(data, line_spans(data)[k].0);
        assert(line_spans(data)[k].0 == 0);
        if k >= 1 {
            assert(line_spans(data)[k].0 == raw_line_end(data, line_spans(data)[k - 1].0) + 1);
            assert(false);
        }
        assert(line_spans(data)[0].1 == line_end(data, 0));
        assert(false);
    }
    lemma_next_step(data, k);
}

/// Iterating `prev_line` from the end of the source yields every line in
/// reverse file order, then one empty result with the cursor on line 0 at
/// offset 0: the first step lands on the last line, the step from line
/// `k` lands on line `k - 1`, and line 0 starts at offset 0, where
/// `prev_line` reports no further line.
pub proof fn lemma_backward_iteration(data: Seq<u8>, k: int)
    requires
        data.len() >= 1,
        0 <= k < line_spans(data).len(),
    ensures
        prev_line_start(data, data.len() as int) == line_spans(data)[line_spans(data).len()
            - 1].0,
        k >= 1 ==> prev_line_start(data, line_spans(data)[k].0) == line_spans(data)[k - 1].0
            && line_spans(data)[k - 1].1 == line_end(data, line_spans(data)[k - 1].0),
        line_spans(data)[0].0 == 0,
        line_spans(data)[k].1 == line_end(data, line_spans(data)[k].0),
{
    lemma_line_spans_from(data, 0);
    lemma_prev_from_eof(data);
    if k >= 1 {
        lemma_prev_step(data, k);
    }
}

/// The cursor movement of one successful `next_line` call: no move at the
/// end of the source; otherwise to the following line, or to the end of
/// the source when only a final terminator remains.
pub open spec fn next_cursor(data: Seq<u8>, c: (int, int)) -> (int, int) {
    if c.1 == data.len() {
        c
    } else {
        let ns = next_line_start(data, c.1);
        if ns == data.len() {
            (data.len() as int, data.len() as int)
        } else {
            (ns, line_end(data, ns))
        }
    }
}

/// The cursor movement of one successful `prev_line` call: no move at the
/// beginning of the source; otherwise to the preceding line.
pub open spec fn prev_cursor(data: Seq<u8>, c: (int, int)) -> (int, int) {
    if c.0 == 0 {
        c
    } else {
        let p = prev_line_start(data, c.0);
        (p, line_end(data, p))
    }
}

/// The cursor after `n` `next_line` calls from the beginning of the
/// source.
pub open spec fn cursor_after_next_calls(data: Seq<u8>, n: nat) -> (int, int)
    decreases n,
{
    if n == 0 {
        (0int, 0int)
    } else {
        next_cursor(data, cursor_after_next_calls(data, (n - 1) as nat))
    }
}

/// The cursor after `n` `prev_line` calls from the end of the source.
pub open spec fn cursor_after_prev_calls(data: Seq<u8>, n: nat) -> (int, int)
    decreases n,
{
    if n == 0 {
        (data.len() as int, data.len() as int)
    } else {
        prev_cursor(data, cursor_after_prev_calls(data, (n - 1) as nat))
    }
}

/// Iterating `next_line` from the beginning of a source with N lines
/// yields exactly those lines in file order: the n-th call lands on line
/// `n - 1`. Stated for sources whose first line is not empty.
pub proof fn lemma_forward_traversal(data: Seq<u8>, n: nat)
    requires
        data.len() >= 1,
        line_end(data, 0) != 0,
        1 <= n <= line_spans(data).len(),
    ensures
        cursor_after_next_calls(data, n) == line_spans(data)[n - 1],
    decreases n,
{
    lemma_line_spans_from(data, 0);
    if n == 1 {
        assert(cursor_after_next_calls(data, 0) == (0int, 0int));
        lemma_raw_line_end(data, 0);
    } else {
        lemma_forward_traversal(data, (n - 1) as nat);
        lemma_forward_iteration(data, n - 2);
    }
}

/// After all N lines, one more `next_line` call reports no line: the
/// cursor's end sits at the end of the source, and it stays there.
pub proof fn lemma_forward_traversal_end(data: Seq<u8>)
    requires
        data.len() >= 1,
        line_end(data, 0) != 0,
    ensures
        ({
            let c = cursor_after_next_calls(data, (line_spans(data).len() + 1) as nat);
            c.1 == data.len() && next_cursor(data, c) == c
        }),
{
    lemma_line_spans_from(data, 0);
    let nn = line_spans(data).len();
    lemma_forward_traversal(data, nn);
    lemma_forward_iteration(data, nn - 1);
    lemma_line_end(data, line_spans(data)[nn - 1].0);
}

/// Iterating `prev_line` from the end of a source with N lines yields
/// exactly those lines in reverse file order: the n-th call lands on line
/// `N - n`. No condition on the source's shape is needed.
pub proof fn lemma_backward_traversal(data: Seq<u8>, n: nat)
    requires
        data.len() >= 1,
        1 <= n <= line_spans(data).len(),
    ensures
        cursor_after_prev_calls(data, n) == line_spans(data)[line_spans(data).len() - n],
    decreases n,
{
    lemma_line_spans_from(data, 0);
    let sp = line_spans(data);
    if n == 1 {
        assert(cursor_after_prev_calls(data, 0) == (data.len() as int, data.len() as int));
        lemma_prev_from_eof(data);
    } else {
        lemma_backward_traversal(data, (n - 1) as nat);
        lemma_prev_step(data, sp.len() - n + 1);
        if sp[sp.len() - n + 1].0 == 0 {
            lemma_spans_positive(data, sp.len() - n + 1);
        }
    }
}

/// After all N lines, one more `prev_line` call reports no line: the
/// cursor stays on line 0, which starts at offset 0.
pub proof fn lemma_backward_traversal_end(data: Seq<u8>)
    requires
        data.len() >= 1,
    ensures
        cursor_after_prev_calls(data, (line_spans(data).len() + 1) as nat) == line_spans(data)[0],
        line_spans(data)[0].0 == 0,
{
    lemma_line_spans_from(data, 0);
    lemma_backward_traversal(data, line_spans(data).len());
}

/// Every line but line 0 starts past offset 0.
proof fn lemma_spans_positive(data: Seq<u8>, k: int)
    requires
        data.len() >= 1,
        1 <= k < line_spans(data).len(),
    ensures
        line_spans(data)[k].0 >= 1,
{
    lemma_line_spans_from(data, 0);
    assert(line_spans(data)[k].0 == raw_line_end(data, line_spans(data)[k - 1].0) + 1);
    lemma_raw_line_end(data, line_spans(data)[k - 1].0);
}

/// `current_line` is idempotent: the span it resolves to is a fixed point
/// of the resolution, so repeated calls without a move in between return
/// the same content and leave the cursor alone.
pub proof fn lemma_current_idempotent(data: Seq<u8>, start: int, end: int)
    requires
        data.len() >= 1,
        0 <= start <= end <= data.len(),
    ensures
        ({
            let target = current_target(data, start, end);
            current_target(data, target.0, target.1) == target
        }),
{
    let target = current_target(data, start, end);
    if start == end && start == data.len() {
        crate::model::lemma_prev_line_start(data, data.len() as int);
        lemma_line_end(data, target.0);
    } else if start == end && end == 0 {
        lemma_line_end(data, 0);
        lemma_raw_line_end(data, 0);
    }
}

/// `next_line` followed by `prev_line` returns to the line the cursor was
/// on: stepping backward from the start of line `k + 1` resolves exactly
/// line `k` again.
pub proof fn lemma_next_then_prev(data: Seq<u8>, k: int)
    requires
        data.len() >= 1,
        0 <= k,
        k + 1 < line_spans(data).len(),
    ensures
        prev_line_start(data, line_spans(data)[k + 1].0) == line_spans(data)[k].0,
        line_spans(data)[k].1 == line_end(data, line_spans(data)[k].0),
{
    lemma_line_spans_from(data, 0);
    lemma_prev_step(data, k + 1);
}

/// Every carriage return in the data directly precedes a line feed: the
/// shape of a source whose lines are all CRLF-terminated.
pub open spec fn crlf_terminated(data: Seq<u8>) -> bool {
    forall|j: int|
        0 <= j < data.len() && #[trigger] data[j] == CR_BYTE ==> j + 1 < data.len() && data[j + 1]
            == LF_BYTE
}

/// Returned content never includes a terminator: no byte of any line's
/// span is a line feed, and in a CRLF-terminated source none is a
/// carriage return either.
#[verifier::spinoff_prover]
#[verifier::rlimit(60)]
pub proof fn lemma_content_excludes_terminators(data: Seq<u8>, k: int, j: int)
    requires
        data.len() >= 1,
        0 <= k < line_spans(data).len(),
        line_spans(data)[k].0 <= j < line_spans(data)[k].1,
    ensures
        data[j] != LF_BYTE,
        crlf_terminated(data) ==> data[j] != CR_BYTE,
{
    lemma_line_spans_from(data, 0);
    let s = line_spans(data)[k].0;
    let e = line_spans(data)[k].1;
    let raw = raw_line_end(data, s);
    lemma_raw_line_end(data, s);
    lemma_line_end(data, s);
    if crlf_terminated(data) && data[j] == CR_BYTE {
        assert(data[j + 1] == LF_BYTE);
        assert(j + 1 >= raw);
        assert(j + 1 == raw);
        assert(e == raw || e == raw - 1);
        assert(false);
    }
}

} // verus!
