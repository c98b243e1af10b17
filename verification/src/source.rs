//! The transport capability the reader speaks through: given a list of byte
//! ranges, materialize their concatenation.  An in-memory transport is
//! provided and verified; other transports may implement the same trait.

use vstd::prelude::*;

use crate::errors::SourceError;
use crate::page_list::concat_ranges;
use crate::page_list::range_in_bounds;
use crate::page_list::ranges_in_bounds;
use crate::page_list::SourceSlice;

verus! {

/// A transport that can materialize views of an underlying byte sequence.
///
/// `data` is the whole underlying byte sequence; `requests` records every
/// byte range ever asked of the transport, in order.  A transport may fail
/// any request, but a view it does return is exactly the concatenation of
/// the in-bounds ranges that were asked for, and reading never changes the
/// underlying data.
pub trait Source: Sized {
    /// The underlying bytes this transport reads from.
    spec fn data(self) -> Seq<u8>;

    /// Every byte range requested so far, in request order.
    spec fn requests(self) -> Seq<SourceSlice>;

    /// Whether this transport is total: it serves every in-bounds request
    /// and fails only with `UnexpectedEof`, only on an out-of-bounds one.
    /// An in-memory transport is reliable; one doing real I/O need not be.
    spec fn reliable(self) -> bool;

    /// Materializes the concatenation of the requested byte ranges.
    fn read_ranges(&mut self, slices: &Vec<SourceSlice>) -> (r: Result<Vec<u8>, SourceError>)
        ensures
            final(self).data() == old(self).data(),
            final(self).requests() == old(self).requests() + slices@,
            r matches Ok(v) ==> ranges_in_bounds(old(self).data(), slices@) && v@ == concat_ranges(
                old(self).data(),
                slices@,
            ),
            old(self).reliable() ==> final(self).reliable(),
            old(self).reliable() && ranges_in_bounds(old(self).data(), slices@) ==> r is Ok,
            old(self).reliable() ==> (r matches Err(se) ==> se == SourceError::UnexpectedEof
                && !ranges_in_bounds(old(self).data(), slices@)),
    ;
}

/// A transport over bytes held in memory.  It also keeps the log of all
/// requested ranges, so that a caller can observe what was read.
pub struct MemorySource {
    /// The underlying bytes.
    pub bytes: Vec<u8>,
    /// Every range requested so far, in request order.
    pub log: Vec<SourceSlice>,
}

impl MemorySource {
    /// Wraps a byte buffer as a transport.
    pub fn new(bytes: Vec<u8>) -> (r: MemorySource)
        ensures
            r.data() == bytes@,
            r.requests() == Seq::<SourceSlice>::empty(),
    {
        MemorySource { bytes, log: Vec::new() }
    }

    /// The ranges requested of this transport so far, in request order.
    pub fn requested(&self) -> (r: &Vec<SourceSlice>)
        ensures
            r@ == self.requests(),
    {
        &self.log
    }
}

impl Source for MemorySource {
    open spec fn data(self) -> Seq<u8> {
        self.bytes@
    }

    open spec fn requests(self) -> Seq<SourceSlice> {
        self.log@
    }

    open spec fn reliable(self) -> bool {
        true
    }

    fn read_ranges(&mut self, slices: &Vec<SourceSlice>) -> (r: Result<Vec<u8>, SourceError>) {
        let ghost data = self.bytes@;
        let ghost old_log = self.log@;

        // Record the request, in order, whether or not it can be served.
        let mut i: usize = 0;
        while i < slices.len()
            invariant
                i <= slices@.len(),
                data == old(self).data(),
                old_log == old(self).requests(),
                self.bytes@ == data,
                self.log@ == old_log + slices@.take(i as int),
            decreases slices@.len() - i,
        {
            self.log.push(slices[i]);
            proof {
                assert(old_log + slices@.take(i as int) + seq![slices@[i as int]] =~= old_log
                    + slices@.take(i as int + 1));
            }
            i = i + 1;
        }
        proof {
            assert(slices@.take(slices@.len() as int) =~= slices@);
        }

        // Serve it: concatenate the ranges, refusing any that reaches past
        // the end of the data.
        let mut out: Vec<u8> = Vec::new();
        let mut i: usize = 0;
        proof {
            assert(slices@.skip(0) =~= slices@);
            assert(out@ + concat_ranges(data, slices@.skip(0)) =~= concat_ranges(data, slices@));
        }
        while i < slices.len()
            invariant
                i <= slices@.len(),
                data == old(self).data(),
                old_log == old(self).requests(),
                self.bytes@ == data,
                self.log@ == old_log + slices@,
                forall|k: int| 0 <= k < i ==> range_in_bounds(data, #[trigger] slices@[k]),
                concat_ranges(data, slices@) == out@ + concat_ranges(data, slices@.skip(i as int)),
            decreases slices@.len() - i,
        {
            let s = slices[i];
            if s.offset > self.bytes.len() as u64 || s.size as u64 > self.bytes.len() as u64
                - s.offset {
                proof {
                    assert(!range_in_bounds(data, slices@[i as int]));
                    assert(!ranges_in_bounds(data, slices@));
                }
                return Err(SourceError::UnexpectedEof);
            }
            let base = s.offset as usize;
            let ghost out_before = out@;
            let mut j: usize = 0;
            while j < s.size
                invariant
                    j <= s.size,
                    self.bytes@ == data,
                    base == s.offset,
                    base + s.size <= data.len(),
                    data.len() <= usize::MAX,
                    out@ == out_before + data.subrange(base as int, base + j),
                decreases s.size - j,
            {
                out.push(self.bytes[base + j]);
                proof {
                    assert(out_before + data.subrange(base as int, base + j) + seq![data[base + j]]
                        =~= out_before + data.subrange(base as int, base + j + 1));
                }
                j = j + 1;
            }
            proof {
                let tail = slices@.skip(i as int);
                assert(tail[0] == slices@[i as int]);
                assert(tail.drop_first() =~= slices@.skip(i as int + 1));
                let rest = concat_ranges(data, slices@.skip(i as int + 1));
                assert(concat_ranges(data, tail) == data.subrange(
                    s.offset as int,
                    s.offset + s.size,
                ) + rest);
                assert(out_before + data.subrange(s.offset as int, s.offset + s.size) + rest
                    =~= out_before + (data.subrange(s.offset as int, s.offset + s.size) + rest));
            }
            i = i + 1;
        }
        proof {
            assert(slices@.skip(slices@.len() as int) =~= Seq::<SourceSlice>::empty());
            assert(out@ + concat_ranges(data, slices@.skip(slices@.len() as int)) =~= out@);
        }
        Ok(out)
    }
}

} // verus!
