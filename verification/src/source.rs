//! The byte-addressable source the reader navigates: an abstract
//! capability exposing its total length and random-access reads, together
//! with an in-memory implementation.

use vstd::prelude::*;

verus! {

use crate::error::Error;

/// A seekable, readable resource with a fixed size. The contents are
/// treated as immutable for the session: reading never changes them.
pub trait ByteSource: Sized {
    /// The full byte contents of the source.
    spec fn contents(&self) -> Seq<u8>;

    /// A source holds no more bytes than the address space admits.
    proof fn lemma_contents_bounded(&self)
        ensures
            self.contents().len() <= usize::MAX,
    ;

    /// Whether reads from this source cannot fail: an in-memory source is
    /// infallible, a device-backed one need not be.
    spec fn infallible(&self) -> bool;

    /// The total length of the source in bytes.
    fn len(&self) -> (r: u64)
        ensures
            r as nat == self.contents().len(),
    ;

    /// Read exactly `count` bytes starting at byte `offset`, or report an
    /// input failure. The contents themselves never change.
    fn read_at(&mut self, offset: u64, count: usize) -> (r: Result<Vec<u8>, Error>)
        requires
            offset as nat + count as nat <= old(self).contents().len(),
        ensures
            final(self).contents() == old(self).contents(),
            final(self).infallible() == old(self).infallible(),
            old(self).infallible() ==> r is Ok,
            match r {
                Ok(v) => v@ == final(self).contents().subrange(
                    offset as int,
                    offset as int + count as int,
                ),
                Err(e) => e is Io,
            },
    ;
}

/// A source backed by a byte buffer held in memory: the simplest
/// byte-addressable resource, and the test double for the reader.
pub struct MemSource {
    pub data: Vec<u8>,
}

impl MemSource {
    /// Wrap a byte buffer as a source.
    pub fn new(data: Vec<u8>) -> (r: MemSource)
        ensures
            r.contents() == data@,
    {
        MemSource { data }
    }
}

impl ByteSource for MemSource {
    open spec fn contents(&self) -> Seq<u8> {
        self.data@
    }

    open spec fn infallible(&self) -> bool {
        true
    }

    proof fn lemma_contents_bounded(&self) {
        vstd::std_specs::vec::axiom_spec_len(&self.data);
    }

    fn len(&self) -> (r: u64) {
        proof {
            self.lemma_contents_bounded();
        }
        self.data.len() as u64
    }

    fn read_at(&mut self, offset: u64, count: usize) -> (r: Result<Vec<u8>, Error>) {
        proof {
            self.lemma_contents_bounded();
        }
        let base = offset as usize;
        let mut out: Vec<u8> = Vec::new();
        let mut i: usize = 0;
        while i < count
            invariant
                0 <= i <= count,
                base as int == offset as int,
                base + count <= self.data@.len(),
                self.data@.len() <= usize::MAX,
                out@ == self.data@.subrange(base as int, base as int + i as int),
            decreases count - i,
        {
            out.push(self.data[base + i]);
            proof {
                assert(out@ =~= self.data@.subrange(base as int, base as int + i as int + 1));
            }
            i += 1;
        }
        proof {
            assert(out@ =~= self.contents().subrange(offset as int, offset as int + count as int));
        }
        Ok(out)
    }
}

} // verus!
