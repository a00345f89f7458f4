//! The boundary scanner: chunked searches over the byte source that
//! resolve where a line starts and ends, without loading the whole source.

use vstd::prelude::*;

verus! {

use crate::LF_BYTE;
use crate::CR_BYTE;
use crate::error::Error;
use crate::source::ByteSource;
use crate::model::raw_line_end;
use crate::model::line_end;
use crate::model::prev_line_start;
use crate::model::lemma_raw_line_end_unique;
use crate::model::lemma_prev_line_start_unique;

/// Scan forward from `start` in chunks of at most `chunk` bytes for the
/// terminating line feed. Returns the raw end (the line feed's position,
/// or the data's length when none follows) and the content end (one less
/// when a carriage return directly precedes the line feed). When the line
/// feed opens its chunk, the byte before it is fetched with one extra
/// single-byte read.
pub(crate) fn scan_line_end<S: ByteSource>(src: &mut S, size: u64, chunk: usize, start: u64) -> (r:
    Result<(u64, u64), Error>)
    requires
        size as nat == old(src).contents().len(),
        chunk >= 1,
        start <= size,
    ensures
        final(src).contents() == old(src).contents(),
        final(src).infallible() == old(src).infallible(),
        old(src).infallible() ==> r is Ok,
        match r {
            Ok(pair) => pair.0 as int == raw_line_end(old(src).contents(), start as int)
                && pair.1 as int == line_end(old(src).contents(), start as int),
            Err(e) => e is Io,
        },
{
    let ghost data = src.contents();
    let mut pos: u64 = start;
    loop
        invariant
            size as nat == src.contents().len(),
            src.contents() == data,
            data == old(src).contents(),
            src.infallible() == old(src).infallible(),
            chunk >= 1,
            start <= pos <= size,
            forall|q: int| start <= q < pos ==> data[q] != LF_BYTE,
        decreases size - pos,
    {
        if pos == size {
            proof {
                lemma_raw_line_end_unique(data, start as int, size as int);
            }
            return Ok((size, size));
        }
        let count: usize = if size - pos < chunk as u64 {
            (size - pos) as usize
        } else {
            chunk
        };
        let block = match src.read_at(pos, count) {
            Ok(v) => v,
            Err(e) => {
                return Err(e);
            },
        };
        let mut i: usize = 0;
        while i < count
            invariant
                size as nat == src.contents().len(),
                src.contents() == data,
                data == old(src).contents(),
                src.infallible() == old(src).infallible(),
                0 <= i <= count,
                1 <= count,
                start <= pos,
                pos + count <= size,
                block@ == data.subrange(pos as int, pos as int + count as int),
                forall|q: int| start <= q < pos + i ==> data[q] != LF_BYTE,
            decreases count - i,
        {
            if block[i] == LF_BYTE {
                let j: u64 = pos + i as u64;
                proof {
                    assert(data[j as int] == LF_BYTE);
                    lemma_raw_line_end_unique(data, start as int, j as int);
                }
                let e: u64;
                if j > start {
                    let prev_byte: u8 = if i > 0 {
                        block[i - 1]
                    } else {
                        let one = match src.read_at(j - 1, 1) {
                            Ok(v) => v,
                            Err(er) => {
                                return Err(er);
                            },
                        };
                        one[0]
                    };
                    proof {
                        assert(prev_byte == data[j - 1]);
                    }
                    e = if prev_byte == CR_BYTE {
                        j - 1
                    } else {
                        j
                    };
                } else {
                    e = j;
                }
                return Ok((j, e));
            }
            i += 1;
        }
        pos = pos + count as u64;
    }
}

/// Scan backward from `origin` in chunks of at most `chunk` bytes for the
/// line feed that ends the line before `origin`, returning that line's
/// start; position 0 is itself a valid start. The byte directly before
/// `origin` is skipped, so the search cannot stop on the boundary it
/// started from.
pub(crate) fn scan_start_before<S: ByteSource>(
    src: &mut S,
    size: u64,
    chunk: usize,
    origin: u64,
) -> (r: Result<u64, Error>)
    requires
        size as nat == old(src).contents().len(),
        chunk >= 1,
        1 <= origin <= size,
    ensures
        final(src).contents() == old(src).contents(),
        final(src).infallible() == old(src).infallible(),
        old(src).infallible() ==> r is Ok,
        match r {
            Ok(p) => p as int == prev_line_start(old(src).contents(), origin as int),
            Err(e) => e is Io,
        },
{
    let ghost data = src.contents();
    let mut p: u64 = origin - 1;
    loop
        invariant
            size as nat == src.contents().len(),
            src.contents() == data,
            data == old(src).contents(),
            src.infallible() == old(src).infallible(),
            chunk >= 1,
            0 <= p <= origin - 1,
            1 <= origin <= size,
            forall|q: int| p < q <= origin - 1 ==> #[trigger] data[q - 1] != LF_BYTE,
        decreases p,
    {
        if p == 0 {
            proof {
                lemma_prev_line_start_unique(data, origin as int, 0);
            }
            return Ok(0);
        }
        let count: usize = if p < chunk as u64 {
            p as usize
        } else {
            chunk
        };
        let lo: u64 = p - count as u64;
        let block = match src.read_at(lo, count) {
            Ok(v) => v,
            Err(e) => {
                return Err(e);
            },
        };
        let mut t: usize = 0;
        while t < count
            invariant
                size as nat == src.contents().len(),
                src.contents() == data,
                data == old(src).contents(),
                src.infallible() == old(src).infallible(),
                0 <= t <= count,
                1 <= count,
                p as int == lo as int + count as int - t as int,
                1 <= p <= origin - 1,
                1 <= origin <= size,
                lo as int + count as int <= size as int,
                block@ == data.subrange(lo as int, lo as int + count as int),
                forall|q: int| p < q <= origin - 1 ==> #[trigger] data[q - 1] != LF_BYTE,
            decreases count - t,
        {
            if block[count - 1 - t] == LF_BYTE {
                proof {
                    assert(data[p - 1] == LF_BYTE);
                    lemma_prev_line_start_unique(data, origin as int, p as int);
                }
                return Ok(p);
            }
            p = p - 1;
            if p == 0 {
                proof {
                    lemma_prev_line_start_unique(data, origin as int, 0);
                }
                return Ok(0);
            }
            t += 1;
        }
    }
}

} // verus!
