//! The reader: a cursor over the lines of a byte source, moved by
//! forward, backward, random and current-line requests, optionally
//! accelerated by a prebuilt index of every line span.

use vstd::prelude::*;

verus! {

use vstd::utf8::valid_utf8;
use vstd::utf8::decode_utf8;
use crate::error::Error;
use crate::source::ByteSource;
use crate::model::is_line_start;
use crate::model::line_end;
use crate::model::prev_line_start;
use crate::model::next_line_start;
use crate::model::line_spans;
use crate::model::line_spans_from;
use crate::model::lemma_raw_line_end;
use crate::model::lemma_line_end;
use crate::model::lemma_prev_line_start;
use crate::model::lemma_line_spans_from;
use crate::model::lemma_start_in_spans;
use crate::model::lemma_span_at;
use crate::model::lemma_next_step;
use crate::model::lemma_prev_step;
use crate::model::lemma_offset_line;
use crate::scan::scan_line_end;
use crate::scan::scan_start_before;
use crate::trusted::offset_map_new;
use crate::trusted::offset_map_insert;
use crate::trusted::offset_map_get;
use crate::trusted::random_below;
use crate::trusted::utf8_to_string;

/// What a navigation call reports once it has resolved the span `[s, e)`:
/// the decoded content when the bytes are valid UTF-8, otherwise the
/// decode failure carrying the span's boundaries.
pub open spec fn line_read_result(
    data: Seq<u8>,
    s: int,
    e: int,
    r: Result<Option<String>, Error>,
) -> bool {
    if valid_utf8(data.subrange(s, e)) {
        r matches Ok(Some(line)) && line@ == decode_utf8(data.subrange(s, e))
    } else {
        r matches Err(er) && er == (Error::Decode { start: s as u64, end: e as u64 })
    }
}

/// The span `current_line` settles on: a degenerate cursor at the end of
/// the data resolves backward to the last line, one at the beginning
/// resolves forward to the first line, and any other cursor is kept.
pub open spec fn current_target(data: Seq<u8>, start: int, end: int) -> (int, int) {
    if start == end {
        if start == data.len() {
            let s = prev_line_start(data, data.len() as int);
            (s, line_end(data, s))
        } else if end == 0 {
            (0, line_end(data, 0))
        } else {
            (start, end)
        }
    } else {
        (start, end)
    }
}

/// A reader over the lines of a byte source. The cursor is the half-open
/// byte span of the currently selected line, terminators excluded;
/// `(0, 0)` is the beginning of the source and `(file_size, file_size)`
/// its end.
pub struct EasyReader<S: ByteSource> {
    pub source: S,
    pub file_size: u64,
    pub chunk_size: usize,
    pub current_start_line_offset: u64,
    pub current_end_line_offset: u64,
    pub indexed: bool,
    pub offsets_index: Vec<(usize, usize)>,
    pub newline_map: fnv::FnvHashMap<usize, usize>,
}

impl<S: ByteSource> EasyReader<S> {
    /// The bytes the reader navigates.
    pub open spec fn data(&self) -> Seq<u8> {
        self.source.contents()
    }

    /// The cursor denotes the beginning of the source, its end, or one of
    /// its lines.
    pub open spec fn cursor_ok(&self) -> bool {
        ||| (self.current_start_line_offset == 0 && self.current_end_line_offset == 0)
        ||| (self.current_start_line_offset == self.file_size && self.current_end_line_offset
            == self.file_size)
        ||| (is_line_start(self.data(), self.current_start_line_offset as int)
            && self.current_end_line_offset as int == line_end(
            self.data(),
            self.current_start_line_offset as int,
        ))
    }

    /// The index lists every line span of the source in order, and the
    /// offset map sends each span's start to its position in the list.
    pub open spec fn index_ok(&self) -> bool {
        let sp = line_spans(self.data());
        &&& self.offsets_index@.len() == sp.len()
        &&& (forall|k: int|
            0 <= k < sp.len() ==> #[trigger] self.offsets_index@[k] == ((
            sp[k].0 as usize,
            sp[k].1 as usize,
            )))
        &&& (forall|k: int|
            0 <= k < sp.len() ==> self.newline_map@.contains_key((#[trigger] sp[k]).0 as usize)
                && self.newline_map@[sp[k].0 as usize] == k as usize)
    }

    /// Well-formedness: the recorded size matches the source, the source
    /// is not empty, chunks have at least one byte, the cursor is valid,
    /// and the index, once built, models the source's lines.
    pub open spec fn wf(&self) -> bool {
        &&& self.file_size as nat == self.data().len()
        &&& self.file_size >= 1
        &&& self.chunk_size >= 1
        &&& self.cursor_ok()
        &&& (self.indexed ==> self.index_ok())
        &&& (!self.indexed ==> self.offsets_index@.len() == 0 && self.newline_map@ == (Map::<
            usize,
            usize,
        >::empty()))
    }

    /// Open a reader over a source, with the cursor at the beginning. A
    /// source of zero length is rejected.
    pub fn new(source: S) -> (r: Result<EasyReader<S>, Error>)
        ensures
            r is Err <==> source.contents().len() == 0,
            match r {
                Ok(reader) => reader.wf() && reader.data() == source.contents()
                    && reader.file_size as nat == source.contents().len()
                    && reader.current_start_line_offset == 0 && reader.current_end_line_offset == 0
                    && !reader.indexed && reader.chunk_size == 200,
                Err(er) => er is EmptyFile,
            },
    {
        let file_size = source.len();
        if file_size == 0 {
            return Err(Error::EmptyFile);
        }
        Ok(
            EasyReader {
                source,
                file_size,
                chunk_size: 200,
                current_start_line_offset: 0,
                current_end_line_offset: 0,
                indexed: false,
                offsets_index: Vec::new(),
                newline_map: offset_map_new(),
            },
        )
    }

    /// Set the scan granularity: how many bytes each boundary-scanning
    /// read fetches. Configuration only; results do not depend on it.
    pub fn chunk_size(&mut self, size: usize)
        requires
            old(self).wf(),
            size >= 1,
        ensures
            final(self).wf(),
            final(self).chunk_size == size,
            final(self).source == old(self).source,
            final(self).file_size == old(self).file_size,
            final(self).current_start_line_offset == old(self).current_start_line_offset,
            final(self).current_end_line_offset == old(self).current_end_line_offset,
            final(self).indexed == old(self).indexed,
            final(self).offsets_index@ == old(self).offsets_index@,
            final(self).newline_map@ == old(self).newline_map@,
    {
        self.chunk_size = size;
    }

    /// Put the cursor at the beginning of the source. No bytes are read.
    pub fn bof(&mut self)
        requires
            old(self).wf(),
        ensures
            final(self).wf(),
            final(self).current_start_line_offset == 0,
            final(self).current_end_line_offset == 0,
            final(self).source == old(self).source,
            final(self).file_size == old(self).file_size,
            final(self).chunk_size == old(self).chunk_size,
            final(self).indexed == old(self).indexed,
            final(self).offsets_index@ == old(self).offsets_index@,
            final(self).newline_map@ == old(self).newline_map@,
    {
        self.current_start_line_offset = 0;
        self.current_end_line_offset = 0;
    }

    /// Put the cursor at the end of the source. No bytes are read.
    pub fn eof(&mut self)
        requires
            old(self).wf(),
        ensures
            final(self).wf(),
            final(self).current_start_line_offset == old(self).file_size,
            final(self).current_end_line_offset == old(self).file_size,
            final(self).source == old(self).source,
            final(self).file_size == old(self).file_size,
            final(self).chunk_size == old(self).chunk_size,
            final(self).indexed == old(self).indexed,
            final(self).offsets_index@ == old(self).offsets_index@,
            final(self).newline_map@ == old(self).newline_map@,
    {
        self.current_start_line_offset = self.file_size;
        self.current_end_line_offset = self.file_size;
    }

    /// Fetch the bytes of the resolved span `[s, e)`, and on any outcome
    /// but an input failure move the cursor there; the span must be a
    /// genuine line of the source.
    fn commit_and_read(&mut self, s: u64, e: u64) -> (r: Result<Option<String>, Error>)
        requires
            old(self).wf(),
            is_line_start(old(self).data(), s as int),
            e as int == line_end(old(self).data(), s as int),
        ensures
            final(self).wf(),
            final(self).data() == old(self).data(),
            final(self).file_size == old(self).file_size,
            final(self).chunk_size == old(self).chunk_size,
            final(self).indexed == old(self).indexed,
            final(self).offsets_index@ == old(self).offsets_index@,
            final(self).newline_map@ == old(self).newline_map@,
            final(self).source.infallible() == old(self).source.infallible(),
            old(self).source.infallible() ==> !(r matches Err(er) && er is Io),
            ({
                ||| (final(self).current_start_line_offset == s
                    && final(self).current_end_line_offset == e && line_read_result(
                    old(self).data(),
                    s as int,
                    e as int,
                    r,
                ))
                ||| (r matches Err(er) && er is Io && final(self).current_start_line_offset == old(self).current_start_line_offset && final(self).current_end_line_offset == old(self).current_end_line_offset)
            }),
    {
        proof {
            lemma_line_end(self.data(), s as int);
            self.source.lemma_contents_bounded();
        }
        let count: usize = (e - s) as usize;
        let bytes = match self.source.read_at(s, count) {
            Ok(v) => v,
            Err(er) => {
                return Err(er);
            },
        };
        proof {
            assert(bytes@ =~= self.data().subrange(s as int, e as int));
        }
        self.current_start_line_offset = s;
        self.current_end_line_offset = e;
        match utf8_to_string(bytes) {
            Some(line) => Ok(Some(line)),
            None => Err(Error::Decode { start: s, end: e }),
        }
    }

    /// Find the current line's position in the index via the offset map.
    fn index_pos(&self) -> (pos: usize)
        requires
            self.wf(),
            self.indexed,
            is_line_start(self.data(), self.current_start_line_offset as int),
            self.current_end_line_offset as int == line_end(
                self.data(),
                self.current_start_line_offset as int,
            ),
        ensures
            (pos as int) < line_spans(self.data()).len(),
            line_spans(self.data())[pos as int].0 == self.current_start_line_offset as int,
            line_spans(self.data())[pos as int].1 == self.current_end_line_offset as int,
            line_spans(self.data())[0].0 == 0,
            self.offsets_index@.len() == line_spans(self.data()).len(),
    {
        let ghost data = self.data();
        proof {
            lemma_line_spans_from(data, 0);
            lemma_start_in_spans(data, 0, self.current_start_line_offset as int);
        }
        let ghost k0: int = choose|k: int|
            0 <= k < line_spans_from(data, 0).len() && (#[trigger] line_spans_from(data, 0)[k]).0
                == self.current_start_line_offset as int;
        let key: usize = self.current_start_line_offset as usize;
        proof {
            self.source.lemma_contents_bounded();
            vstd::std_specs::vec::axiom_spec_len(&self.offsets_index);
            assert(line_spans(data)[k0].0 as usize == key);
            assert(self.newline_map@.contains_key(key));
        }
        let pos = offset_map_get(&self.newline_map, key).unwrap();
        proof {
            assert(pos == k0 as usize);
            assert(pos as int == k0);
        }
        pos
    }

    /// Fetch the line span stored at position `k` of the index.
    fn index_span(&self, k: usize) -> (r: (u64, u64))
        requires
            self.wf(),
            self.indexed,
            (k as int) < line_spans(self.data()).len(),
        ensures
            r.0 as int == line_spans(self.data())[k as int].0,
            r.1 as int == line_spans(self.data())[k as int].1,
            is_line_start(self.data(), r.0 as int),
            r.1 as int == line_end(self.data(), r.0 as int),
    {
        let ghost data = self.data();
        proof {
            lemma_line_spans_from(data, 0);
            self.source.lemma_contents_bounded();
            vstd::std_specs::vec::axiom_spec_len(&self.offsets_index);
            assert(self.offsets_index@[k as int] == ((
            line_spans(data)[k as int].0 as usize,
            line_spans(data)[k as int].1 as usize,
            )));
            if k as int == 0 {
                assert(line_spans(data)[0].0 == 0);
            }
        }
        let pair = self.offsets_index[k];
        (pair.0 as u64, pair.1 as u64)
    }

    /// Move to the line before the current one and return its content;
    /// at the beginning of the source there is none, which is reported as
    /// an empty result, not an error.
    #[verifier::rlimit(60)]
    pub fn prev_line(&mut self) -> (r: Result<Option<String>, Error>)
        requires
            old(self).wf(),
        ensures
            final(self).wf(),
            final(self).data() == old(self).data(),
            final(self).file_size == old(self).file_size,
            final(self).chunk_size == old(self).chunk_size,
            final(self).indexed == old(self).indexed,
            final(self).offsets_index@ == old(self).offsets_index@,
            final(self).newline_map@ == old(self).newline_map@,
            final(self).source.infallible() == old(self).source.infallible(),
            old(self).source.infallible() ==> !(r matches Err(er) && er is Io),
            old(self).current_start_line_offset == 0 ==> r == Ok::<Option<String>, Error>(None)
                && final(self).current_start_line_offset == 0
                && final(self).current_end_line_offset == old(self).current_end_line_offset,
            old(self).current_start_line_offset > 0 ==> ({
                let data = old(self).data();
                let s = prev_line_start(data, old(self).current_start_line_offset as int);
                let e = line_end(data, s);
                ||| (final(self).current_start_line_offset as int == s && final(self).current_end_line_offset as int == e && line_read_result(data, s, e, r))
                ||| (r matches Err(er) && er is Io && final(self).current_start_line_offset == old(self).current_start_line_offset && final(self).current_end_line_offset == old(self).current_end_line_offset)
            }),
    {
        if self.current_start_line_offset == 0 {
            return Ok(None);
        }
        let ghost data = self.data();
        let s: u64;
        let e: u64;
        if self.indexed && self.current_start_line_offset < self.file_size {
            let pos = self.index_pos();
            proof {
                assert(pos as int >= 1);
                lemma_prev_step(data, pos as int);
            }
            let pair = self.index_span(pos - 1);
            s = pair.0;
            e = pair.1;
        } else {
            s = match scan_start_before(
                &mut self.source,
                self.file_size,
                self.chunk_size,
                self.current_start_line_offset,
            ) {
                Ok(v) => v,
                Err(er) => {
                    return Err(er);
                },
            };
            proof {
                lemma_prev_line_start(data, old(self).current_start_line_offset as int);
            }
            let pair = match scan_line_end(&mut self.source, self.file_size, self.chunk_size, s) {
                Ok(v) => v,
                Err(er) => {
                    return Err(er);
                },
            };
            e = pair.1;
        }
        self.commit_and_read(s, e)
    }

    /// Return the content of the line the cursor is on. A degenerate
    /// cursor at the end of the source resolves to the last line, one at
    /// the beginning to the first; any other cursor is left where it is,
    /// so repeated calls return the same content.
    #[verifier::rlimit(60)]
    pub fn current_line(&mut self) -> (r: Result<Option<String>, Error>)
        requires
            old(self).wf(),
        ensures
            final(self).wf(),
            final(self).data() == old(self).data(),
            final(self).file_size == old(self).file_size,
            final(self).chunk_size == old(self).chunk_size,
            final(self).indexed == old(self).indexed,
            final(self).offsets_index@ == old(self).offsets_index@,
            final(self).newline_map@ == old(self).newline_map@,
            final(self).source.infallible() == old(self).source.infallible(),
            old(self).source.infallible() ==> !(r matches Err(er) && er is Io),
            ({
                let data = old(self).data();
                let target = current_target(
                    data,
                    old(self).current_start_line_offset as int,
                    old(self).current_end_line_offset as int,
                );
                ||| (final(self).current_start_line_offset as int == target.0 && final(self).current_end_line_offset as int == target.1 && line_read_result(
                    data,
                    target.0,
                    target.1,
                    r,
                ))
                ||| (r matches Err(er) && er is Io && final(self).current_start_line_offset == old(self).current_start_line_offset && final(self).current_end_line_offset == old(self).current_end_line_offset)
            }),
    {
        let ghost data = self.data();
        let s: u64;
        let e: u64;
        if self.current_start_line_offset == self.current_end_line_offset {
            if self.current_start_line_offset == self.file_size {
                s = match scan_start_before(
                    &mut self.source,
                    self.file_size,
                    self.chunk_size,
                    self.file_size,
                ) {
                    Ok(v) => v,
                    Err(er) => {
                        return Err(er);
                    },
                };
                proof {
                    lemma_prev_line_start(data, old(self).file_size as int);
                }
                let pair = match scan_line_end(
                    &mut self.source,
                    self.file_size,
                    self.chunk_size,
                    s,
                ) {
                    Ok(v) => v,
                    Err(er) => {
                        return Err(er);
                    },
                };
                e = pair.1;
            } else if self.current_end_line_offset == 0 {
                s = 0;
                let pair = match scan_line_end(
                    &mut self.source,
                    self.file_size,
                    self.chunk_size,
                    0,
                ) {
                    Ok(v) => v,
                    Err(er) => {
                        return Err(er);
                    },
                };
                e = pair.1;
            } else {
                s = self.current_start_line_offset;
                e = self.current_end_line_offset;
            }
        } else {
            s = self.current_start_line_offset;
            e = self.current_end_line_offset;
        }
        self.commit_and_read(s, e)
    }

    /// Move to the line after the current one and return its content; at
    /// the end of the source there is none, which is reported as an empty
    /// result, not an error. When only the final terminator remains, the
    /// cursor settles at the end of the source.
    #[verifier::rlimit(60)]
    pub fn next_line(&mut self) -> (r: Result<Option<String>, Error>)
        requires
            old(self).wf(),
        ensures
            final(self).wf(),
            final(self).data() == old(self).data(),
            final(self).file_size == old(self).file_size,
            final(self).chunk_size == old(self).chunk_size,
            final(self).indexed == old(self).indexed,
            final(self).offsets_index@ == old(self).offsets_index@,
            final(self).newline_map@ == old(self).newline_map@,
            final(self).source.infallible() == old(self).source.infallible(),
            old(self).source.infallible() ==> !(r matches Err(er) && er is Io),
            old(self).current_end_line_offset == old(self).file_size ==> r == Ok::<
                Option<String>,
                Error,
            >(None) && final(self).current_start_line_offset == old(self).current_start_line_offset && final(self).current_end_line_offset == old(self).current_end_line_offset,
            old(self).current_end_line_offset < old(self).file_size ==> ({
                let data = old(self).data();
                let ns = next_line_start(data, old(self).current_end_line_offset as int);
                ||| (ns == data.len() && r == Ok::<Option<String>, Error>(None) && final(self).current_start_line_offset == old(self).file_size && final(self).current_end_line_offset == old(self).file_size)
                ||| (ns < data.len() && final(self).current_start_line_offset as int == ns && final(self).current_end_line_offset as int == line_end(data, ns) && line_read_result(
                    data,
                    ns,
                    line_end(data, ns),
                    r,
                ))
                ||| (r matches Err(er) && er is Io && final(self).current_start_line_offset == old(self).current_start_line_offset && final(self).current_end_line_offset == old(self).current_end_line_offset)
            }),
    {
        if self.current_end_line_offset == self.file_size {
            return Ok(None);
        }
        let ghost data = self.data();
        proof {
            if is_line_start(data, self.current_start_line_offset as int) {
                lemma_line_end(data, self.current_start_line_offset as int);
            }
        }
        if self.indexed && self.current_start_line_offset > 0 {
            let pos = self.index_pos();
            proof {
                vstd::std_specs::vec::axiom_spec_len(&self.offsets_index);
                lemma_next_step(data, pos as int);
            }
            if pos + 1 == self.offsets_index.len() {
                self.current_start_line_offset = self.file_size;
                self.current_end_line_offset = self.file_size;
                return Ok(None);
            }
            let pair = self.index_span(pos + 1);
            self.commit_and_read(pair.0, pair.1)
        } else {
            let s: u64;
            if self.current_end_line_offset == 0 {
                s = 0;
            } else {
                let pair = match scan_line_end(
                    &mut self.source,
                    self.file_size,
                    self.chunk_size,
                    self.current_end_line_offset,
                ) {
                    Ok(v) => v,
                    Err(er) => {
                        return Err(er);
                    },
                };
                proof {
                    lemma_raw_line_end(data, old(self).current_end_line_offset as int);
                }
                s = if pair.0 == self.file_size {
                    self.file_size
                } else {
                    pair.0 + 1
                };
            }
            if s == self.file_size {
                self.current_start_line_offset = self.file_size;
                self.current_end_line_offset = self.file_size;
                return Ok(None);
            }
            let pair2 = match scan_line_end(&mut self.source, self.file_size, self.chunk_size, s) {
                Ok(v) => v,
                Err(er) => {
                    return Err(er);
                },
            };
            self.commit_and_read(s, pair2.1)
        }
    }

    /// Move to a random line and return its content. Without an index the
    /// draw is a uniform byte offset, so a line is selected in proportion
    /// to its length in bytes; with an index the draw is a uniform line
    /// number, so every line is selected alike.
    #[verifier::rlimit(60)]
    pub fn random_line(&mut self) -> (r: Result<Option<String>, Error>)
        requires
            old(self).wf(),
        ensures
            final(self).wf(),
            final(self).data() == old(self).data(),
            final(self).file_size == old(self).file_size,
            final(self).chunk_size == old(self).chunk_size,
            final(self).indexed == old(self).indexed,
            final(self).offsets_index@ == old(self).offsets_index@,
            final(self).newline_map@ == old(self).newline_map@,
            final(self).source.infallible() == old(self).source.infallible(),
            old(self).source.infallible() ==> !(r matches Err(er) && er is Io),
            ({
                let data = old(self).data();
                ||| (exists|k: int|
                    0 <= k < line_spans(data).len() && final(self).current_start_line_offset as int == (#[trigger] line_spans(data)[k]).0
                        && final(self).current_end_line_offset as int == line_spans(data)[k].1
                        && line_read_result(data, line_spans(data)[k].0, line_spans(data)[k].1, r))
                ||| (r matches Err(er) && er is Io && final(self).current_start_line_offset == old(self).current_start_line_offset && final(self).current_end_line_offset == old(self).current_end_line_offset)
            }),
    {
        let ghost data = self.data();
        proof {
            lemma_line_spans_from(data, 0);
        }
        if self.indexed {
            let n = self.offsets_index.len();
            let i = random_below(n as u64) as usize;
            let pair = self.index_span(i);
            let res = self.commit_and_read(pair.0, pair.1);
            proof {
                assert((i as int) < line_spans(data).len());
            }
            res
        } else {
            let off = random_below(self.file_size);
            let s = match scan_start_before(
                &mut self.source,
                self.file_size,
                self.chunk_size,
                off + 1,
            ) {
                Ok(v) => v,
                Err(er) => {
                    return Err(er);
                },
            };
            proof {
                lemma_prev_line_start(data, off as int + 1);
                lemma_offset_line(data, off as int);
                let kw = choose|k: int|
                    0 <= k < line_spans(data).len() && (#[trigger] line_spans(data)[k]).0
                        == s as int;
                assert(line_spans(data)[kw].1 == line_end(data, s as int));
            }
            let pair = match scan_line_end(&mut self.source, self.file_size, self.chunk_size, s) {
                Ok(v) => v,
                Err(er) => {
                    return Err(er);
                },
            };
            self.commit_and_read(s, pair.1)
        }
    }

    /// Walk the whole source forward once, recording every line span and
    /// the position of each span's start, then switch every later call to
    /// the index. Must be invoked from the beginning of the source, once;
    /// the cursor stays at the beginning.
    #[verifier::rlimit(100)]
    pub fn build_index(&mut self) -> (r: Result<(), Error>)
        requires
            old(self).wf(),
            old(self).current_start_line_offset == 0,
            old(self).current_end_line_offset == 0,
            !old(self).indexed,
        ensures
            final(self).wf(),
            final(self).data() == old(self).data(),
            final(self).file_size == old(self).file_size,
            final(self).chunk_size == old(self).chunk_size,
            final(self).current_start_line_offset == 0,
            final(self).current_end_line_offset == 0,
            final(self).source.infallible() == old(self).source.infallible(),
            old(self).source.infallible() ==> r is Ok,
            match r {
                Ok(done) => final(self).indexed,
                Err(er) => er is Io && !final(self).indexed,
            },
    {
        let ghost data = self.data();
        proof {
            lemma_line_spans_from(data, 0);
        }
        let ghost sp = line_spans(data);
        let mut spans: Vec<(usize, usize)> = Vec::new();
        let mut map = offset_map_new();
        let mut s: u64 = 0;
        while s < self.file_size
            invariant
                self.file_size as nat == data.len(),
                self.source.contents() == data,
                data == old(self).data(),
                self.source.infallible() == old(self).source.infallible(),
                self.file_size == old(self).file_size,
                self.chunk_size == old(self).chunk_size,
                self.current_start_line_offset == 0,
                self.current_end_line_offset == 0,
                self.indexed == old(self).indexed,
                self.offsets_index@ == old(self).offsets_index@,
                self.newline_map@ == old(self).newline_map@,
                old(self).wf(),
                !old(self).indexed,
                self.chunk_size >= 1,
                self.file_size >= 1,
                sp == line_spans(data),
                spans@.len() <= sp.len(),
                s <= self.file_size,
                s as int == if spans@.len() < sp.len() {
                    sp[spans@.len() as int].0
                } else {
                    data.len() as int
                },
                forall|j: int|
                    0 <= j < spans@.len() ==> #[trigger] spans@[j] == ((
                    sp[j].0 as usize,
                    sp[j].1 as usize,
                    )),
                forall|j: int|
                    0 <= j < spans@.len() ==> map@.contains_key((#[trigger] sp[j]).0 as usize)
                        && map@[sp[j].0 as usize] == j as usize,
            decreases data.len() - s,
        {
            proof {
                lemma_span_at(data, spans@.len() as int);
                self.source.lemma_contents_bounded();
                vstd::std_specs::vec::axiom_spec_len(&spans);
            }
            let pair = match scan_line_end(&mut self.source, self.file_size, self.chunk_size, s) {
                Ok(v) => v,
                Err(er) => {
                    return Err(er);
                },
            };
            let ghost k: int = spans@.len() as int;
            spans.push((s as usize, pair.1 as usize));
            offset_map_insert(&mut map, s as usize, spans.len() - 1);
            let raw = pair.0;
            s = if raw == self.file_size {
                self.file_size
            } else {
                raw + 1
            };
        }
        proof {
            if spans@.len() < sp.len() {
                lemma_span_at(data, spans@.len() as int);
                assert(false);
            }
        }
        self.offsets_index = spans;
        self.newline_map = map;
        self.indexed = true;
        Ok(())
    }
}

} // verus!
