//! Shared machinery of the two MSF variants: the stream-table lifecycle, the
//! produced `Stream` view, the dispatcher, and the `Msf` capability trait.

use vstd::prelude::*;

use crate::big::big_new_err;
use crate::big::big_new_ok;
use crate::big::big_new_post;
use crate::big::BigMSF;
use crate::errors::MsfError;
use crate::errors::SourceError;
use crate::small::small_new_err;
use crate::small::small_new_ok;
use crate::small::small_new_post;
use crate::small::SmallMSF;
use crate::page_list::gather;
use crate::page_list::lemma_concat_ranges_len;
use crate::page_list::lemma_page_list_slices;
use crate::page_list::range_in_bounds;
use crate::page_list::ranges_in_bounds;
use crate::page_list::concat_ranges;
use crate::page_list::slices_rec;
use crate::page_list::PageList;
use crate::page_list::SourceSlice;
use crate::source::Source;

verus! {

/// A stream table at one of its three stages of access.  Transitions are
/// monotonic: `HeaderOnly` to `TableFound` to `Available`.
pub enum StreamTable {
    /// Big MSF only: the header gave the size of the table in bytes and the
    /// pages holding the *list of pages* where the table lives.
    HeaderOnly {
        /// Size of the stream table in bytes.
        size_in_bytes: u64,
        /// Pages holding the list of pages that hold the stream table.
        location_location: PageList,
    },
    /// The pages where the stream table itself lives are known.
    TableFound {
        /// Pages holding the stream table.
        location: PageList,
    },
    /// The stream table's bytes have been read and are cached.
    Available {
        /// The stream table's bytes.
        table: Vec<u8>,
    },
}

/// A single stream of the multi-stream file: a contiguous byte view.
pub struct Stream {
    /// The stream's bytes.
    pub bytes: Vec<u8>,
}

impl View for Stream {
    type V = Seq<u8>;

    open spec fn view(&self) -> Seq<u8> {
        self.bytes@
    }
}

impl Stream {
    /// The stream's bytes, of length equal to the stream's effective size.
    pub fn as_slice(&self) -> (r: &[u8])
        ensures
            r@ == self@,
    {
        self.bytes.as_slice()
    }
}

/// Materializes the bytes of a page list through the transport.  A view that
/// comes back has exactly the list's logical length.
pub fn fetch<S: Source>(source: &mut S, page_list: &PageList) -> (r: Result<Vec<u8>, MsfError>)
    requires
        page_list.wf(),
    ensures
        final(source).data() == old(source).data(),
        final(source).requests() == old(source).requests() + slices_rec(
            page_list.page_size as int,
            page_list.pages@,
            page_list.length as int,
        ),
        r matches Ok(v) ==> v@ == gather(
            old(source).data(),
            page_list.page_size as int,
            page_list.pages@,
            page_list.length as int,
        ) && v@.len() == page_list.length && ranges_in_bounds(
            old(source).data(),
            slices_rec(page_list.page_size as int, page_list.pages@, page_list.length as int),
        ),
        r matches Err(e) ==> e matches MsfError::Transport(_),
        old(source).reliable() ==> final(source).reliable(),
        old(source).reliable() && ranges_in_bounds(
            old(source).data(),
            slices_rec(page_list.page_size as int, page_list.pages@, page_list.length as int),
        ) ==> r is Ok,
        old(source).reliable() ==> (r matches Err(e) ==> e == MsfError::Transport(
            SourceError::UnexpectedEof,
        ) && !ranges_in_bounds(
            old(source).data(),
            slices_rec(page_list.page_size as int, page_list.pages@, page_list.length as int),
        )),
{
    let slices = page_list.source_slices();
    match source.read_ranges(&slices) {
        Ok(v) => {
            proof {
                lemma_page_list_slices(*page_list);
                lemma_concat_ranges_len(old(source).data(), slices@);
            }
            Ok(v)
        },
        Err(e) => Err(MsfError::Transport(e)),
    }
}

/// The byte length a stream's view gets under an optional caller limit.
pub open spec fn limited_len(size: u32, limit: Option<usize>) -> int {
    match limit {
        Some(l) => if (l as int) < size as int {
            l as int
        } else {
            size as int
        },
        None => size as int,
    }
}

/// Whether `d` starts with the Big MSF magic: `"Microsoft C/C++ MSF 7.00\r\n\x1aDS\0\0\0"`.
pub open spec fn has_big_magic(d: Seq<u8>) -> bool {
    &&& d.len() >= 32
    &&& d[0] == 0x4du8
    &&& d[1] == 0x69u8
    &&& d[2] == 0x63u8
    &&& d[3] == 0x72u8
    &&& d[4] == 0x6fu8
    &&& d[5] == 0x73u8
    &&& d[6] == 0x6fu8
    &&& d[7] == 0x66u8
    &&& d[8] == 0x74u8
    &&& d[9] == 0x20u8
    &&& d[10] == 0x43u8
    &&& d[11] == 0x2fu8
    &&& d[12] == 0x43u8
    &&& d[13] == 0x2bu8
    &&& d[14] == 0x2bu8
    &&& d[15] == 0x20u8
    &&& d[16] == 0x4du8
    &&& d[17] == 0x53u8
    &&& d[18] == 0x46u8
    &&& d[19] == 0x20u8
    &&& d[20] == 0x37u8
    &&& d[21] == 0x2eu8
    &&& d[22] == 0x30u8
    &&& d[23] == 0x30u8
    &&& d[24] == 0x0du8
    &&& d[25] == 0x0au8
    &&& d[26] == 0x1au8
    &&& d[27] == 0x44u8
    &&& d[28] == 0x53u8
    &&& d[29] == 0x00u8
    &&& d[30] == 0x00u8
    &&& d[31] == 0x00u8
}

/// Whether `d` starts with the Small MSF magic: `"Microsoft C/C++ program database 2.00\r\n\x1aJG\0\0"`.
pub open spec fn has_small_magic(d: Seq<u8>) -> bool {
    &&& d.len() >= 44
    &&& d[0] == 0x4du8
    &&& d[1] == 0x69u8
    &&& d[2] == 0x63u8
    &&& d[3] == 0x72u8
    &&& d[4] == 0x6fu8
    &&& d[5] == 0x73u8
    &&& d[6] == 0x6fu8
    &&& d[7] == 0x66u8
    &&& d[8] == 0x74u8
    &&& d[9] == 0x20u8
    &&& d[10] == 0x43u8
    &&& d[11] == 0x2fu8
    &&& d[12] == 0x43u8
    &&& d[13] == 0x2bu8
    &&& d[14] == 0x2bu8
    &&& d[15] == 0x20u8
    &&& d[16] == 0x70u8
    &&& d[17] == 0x72u8
    &&& d[18] == 0x6fu8
    &&& d[19] == 0x67u8
    &&& d[20] == 0x72u8
    &&& d[21] == 0x61u8
    &&& d[22] == 0x6du8
    &&& d[23] == 0x20u8
    &&& d[24] == 0x64u8
    &&& d[25] == 0x61u8
    &&& d[26] == 0x74u8
    &&& d[27] == 0x61u8
    &&& d[28] == 0x62u8
    &&& d[29] == 0x61u8
    &&& d[30] == 0x73u8
    &&& d[31] == 0x65u8
    &&& d[32] == 0x20u8
    &&& d[33] == 0x32u8
    &&& d[34] == 0x2eu8
    &&& d[35] == 0x30u8
    &&& d[36] == 0x30u8
    &&& d[37] == 0x0du8
    &&& d[38] == 0x0au8
    &&& d[39] == 0x1au8
    &&& d[40] == 0x4au8
    &&& d[41] == 0x47u8
    &&& d[42] == 0x00u8
    &&& d[43] == 0x00u8
}

/// Compares the leading bytes of `d` against the Big MSF magic.
pub fn check_big_magic(d: &Vec<u8>) -> (r: bool)
    ensures
        r == has_big_magic(d@),
{
    d.len() >= 32
        && d[0] == 0x4d
        && d[1] == 0x69
        && d[2] == 0x63
        && d[3] == 0x72
        && d[4] == 0x6f
        && d[5] == 0x73
        && d[6] == 0x6f
        && d[7] == 0x66
        && d[8] == 0x74
        && d[9] == 0x20
        && d[10] == 0x43
        && d[11] == 0x2f
        && d[12] == 0x43
        && d[13] == 0x2b
        && d[14] == 0x2b
        && d[15] == 0x20
        && d[16] == 0x4d
        && d[17] == 0x53
        && d[18] == 0x46
        && d[19] == 0x20
        && d[20] == 0x37
        && d[21] == 0x2e
        && d[22] == 0x30
        && d[23] == 0x30
        && d[24] == 0x0d
        && d[25] == 0x0a
        && d[26] == 0x1a
        && d[27] == 0x44
        && d[28] == 0x53
        && d[29] == 0x00
        && d[30] == 0x00
        && d[31] == 0x00
}

/// Compares the leading bytes of `d` against the Small MSF magic.
pub fn check_small_magic(d: &Vec<u8>) -> (r: bool)
    ensures
        r == has_small_magic(d@),
{
    d.len() >= 44
        && d[0] == 0x4d
        && d[1] == 0x69
        && d[2] == 0x63
        && d[3] == 0x72
        && d[4] == 0x6f
        && d[5] == 0x73
        && d[6] == 0x6f
        && d[7] == 0x66
        && d[8] == 0x74
        && d[9] == 0x20
        && d[10] == 0x43
        && d[11] == 0x2f
        && d[12] == 0x43
        && d[13] == 0x2b
        && d[14] == 0x2b
        && d[15] == 0x20
        && d[16] == 0x70
        && d[17] == 0x72
        && d[18] == 0x6f
        && d[19] == 0x67
        && d[20] == 0x72
        && d[21] == 0x61
        && d[22] == 0x6d
        && d[23] == 0x20
        && d[24] == 0x64
        && d[25] == 0x61
        && d[26] == 0x74
        && d[27] == 0x61
        && d[28] == 0x62
        && d[29] == 0x61
        && d[30] == 0x73
        && d[31] == 0x65
        && d[32] == 0x20
        && d[33] == 0x32
        && d[34] == 0x2e
        && d[35] == 0x30
        && d[36] == 0x30
        && d[37] == 0x0d
        && d[38] == 0x0a
        && d[39] == 0x1a
        && d[40] == 0x4a
        && d[41] == 0x47
        && d[42] == 0x00
        && d[43] == 0x00
}

/// Provides access to a multi-stream file: the capability the two variant
/// readers share.
///
/// `stream_result` is the reader's whole observable lookup behaviour: for a
/// given stream number and limit, either the exact bytes the directory
/// assigns to that stream, or the error the directory determines.  `get`
/// returns exactly that, except that the transport may fail any request with
/// a `Transport` error.
pub trait Msf<S: Source>: Sized {
    /// Well-formedness of the reader's state.
    spec fn wf(self) -> bool;

    /// The underlying file bytes of the reader's transport.
    spec fn data(self) -> Seq<u8>;

    /// Every byte range the reader's transport was ever asked for.
    spec fn requests(self) -> Seq<SourceSlice>;

    /// Whether the stream table has been read and cached.
    spec fn dir_loaded(self) -> bool;

    /// Whether the reader's transport is reliable (serves every in-bounds
    /// request; see `Source::reliable`).
    spec fn reliable(self) -> bool;

    /// Whether resolving the directory succeeds over a reliable transport:
    /// every byte range the resolution requests lies within the file, and
    /// what comes back parses.  Holds trivially once the directory is
    /// cached.
    spec fn dir_loadable(self) -> bool;

    /// What looking up a stream returns, as the current state and the
    /// underlying bytes determine it.
    spec fn stream_result(self, stream_number: u32, limit: Option<usize>) -> Result<
        Seq<u8>,
        MsfError,
    >;

    /// The byte ranges that materializing the stream's view requests.
    spec fn stream_slices(self, stream_number: u32, limit: Option<usize>) -> Seq<SourceSlice>;

    /// Accesses a stream by stream number, optionally restricted by a byte
    /// limit.
    ///
    /// `get` is idempotent: it preserves `stream_result`, so a second call
    /// with the same arguments is promised a view of identical content and
    /// identical length.  It is also lazy: once the directory is cached
    /// (`dir_loaded`), a call requests at most the returned stream's own
    /// byte ranges, never the directory's pages again.  On a cached
    /// directory a determined failure makes no transport request, and its
    /// exact error is returned; over a reliable transport whose in-bounds
    /// requests cannot fail, success is owed whenever the directory
    /// resolves and the stream's ranges lie within the file.
    fn get(&mut self, stream_number: u32, limit: Option<usize>) -> (r: Result<Stream, MsfError>)
        requires
            old(self).wf(),
        ensures
            final(self).wf(),
            final(self).data() == old(self).data(),
            forall|k: u32, l: Option<usize>|
                #[trigger] final(self).stream_result(k, l) == old(self).stream_result(k, l),
            r matches Ok(s) ==> old(self).stream_result(stream_number, limit) matches Ok(b) && s@
                == b,
            r matches Err(e) ==> (e matches MsfError::Transport(_)) || old(self).stream_result(
                stream_number,
                limit,
            ) == Err::<Seq<u8>, MsfError>(e),
            r matches Ok(_) ==> final(self).dir_loaded(),
            old(self).dir_loaded() ==> final(self).dir_loaded(),
            old(self).reliable() ==> final(self).reliable(),
            old(self).dir_loaded() ==> (old(self).stream_result(stream_number, limit) matches Err(
                e,
            ) ==> r == Err::<Stream, MsfError>(e)),
            old(self).reliable() && old(self).dir_loadable() && old(self).stream_result(
                stream_number,
                limit,
            ) is Ok && ranges_in_bounds(
                old(self).data(),
                old(self).stream_slices(stream_number, limit),
            ) ==> r is Ok,
            old(self).dir_loaded() ==> final(self).requests() == old(self).requests()
                || final(self).requests() == old(self).requests() + old(self).stream_slices(
                stream_number,
                limit,
            ),
    ;
}

/// The one byte range the dispatcher requests: a provisional first page
/// large enough to hold either header.
pub open spec fn header_slice() -> SourceSlice {
    SourceSlice { offset: 0, size: 4096 }
}

/// A reader for either MSF variant: the tagged handle `open_msf` returns.
pub enum MsfReader<S> {
    /// A Big MSF (version 7.00) reader.
    Big(BigMSF<S>),
    /// A Small MSF (version 2.00) reader.
    Small(SmallMSF<S>),
}

impl<S: Source> Msf<S> for MsfReader<S> {
    open spec fn wf(self) -> bool {
        match self {
            MsfReader::Big(m) => m.wf(),
            MsfReader::Small(m) => m.wf(),
        }
    }

    open spec fn data(self) -> Seq<u8> {
        match self {
            MsfReader::Big(m) => m.data(),
            MsfReader::Small(m) => m.data(),
        }
    }

    open spec fn requests(self) -> Seq<SourceSlice> {
        match self {
            MsfReader::Big(m) => m.requests(),
            MsfReader::Small(m) => m.requests(),
        }
    }

    open spec fn dir_loaded(self) -> bool {
        match self {
            MsfReader::Big(m) => m.dir_loaded(),
            MsfReader::Small(m) => m.dir_loaded(),
        }
    }

    open spec fn reliable(self) -> bool {
        match self {
            MsfReader::Big(m) => m.reliable(),
            MsfReader::Small(m) => m.reliable(),
        }
    }

    open spec fn dir_loadable(self) -> bool {
        match self {
            MsfReader::Big(m) => m.dir_loadable(),
            MsfReader::Small(m) => m.dir_loadable(),
        }
    }

    open spec fn stream_result(self, stream_number: u32, limit: Option<usize>) -> Result<
        Seq<u8>,
        MsfError,
    > {
        match self {
            MsfReader::Big(m) => m.stream_result(stream_number, limit),
            MsfReader::Small(m) => m.stream_result(stream_number, limit),
        }
    }

    open spec fn stream_slices(self, stream_number: u32, limit: Option<usize>) -> Seq<SourceSlice> {
        match self {
            MsfReader::Big(m) => m.stream_slices(stream_number, limit),
            MsfReader::Small(m) => m.stream_slices(stream_number, limit),
        }
    }

    fn get(&mut self, stream_number: u32, limit: Option<usize>) -> (r: Result<Stream, MsfError>) {
        match self {
            MsfReader::Big(m) => m.get(stream_number, limit),
            MsfReader::Small(m) => m.get(stream_number, limit),
        }
    }
}

impl<S: Source> MsfReader<S> {
    /// Borrows the transport this reader owns, so that a caller can observe
    /// what has been requested of it.
    pub fn transport(&self) -> (r: &S)
        ensures
            r.data() == self.data(),
            r.requests() == self.requests(),
    {
        match self {
            MsfReader::Big(m) => &m.source,
            MsfReader::Small(m) => &m.source,
        }
    }
}

/// Opens a multi-stream file: requests a view of the first page, compares
/// its leading bytes against the two magics (Big first), and hands the
/// transport and the header view to the winning variant's constructor.
///
/// The only byte range this requests is the provisional 4096-byte first
/// page; directory pages are not touched until the first `get`.  A
/// transport end-of-file while fetching the header page means the file is
/// too short to be an MSF and is reported as `UnrecognizedFileFormat`.
pub fn open_msf<S: Source>(source: S) -> (r: Result<MsfReader<S>, MsfError>)
    ensures
        match r {
            Ok(m) => {
                &&& m.wf()
                &&& m.data() == source.data()
                &&& source.data().len() >= 4096
                &&& m.requests() == source.requests() + seq![header_slice()]
                &&& {
                    let hv = source.data().subrange(0, 4096);
                    if has_big_magic(hv) {
                        m matches MsfReader::Big(b) && big_new_post(hv, b)
                    } else {
                        &&& has_small_magic(hv)
                        &&& (m matches MsfReader::Small(sm) && small_new_post(hv, sm))
                    }
                }
            },
            Err(e) => {
                ||| e == MsfError::UnrecognizedFileFormat
                ||| (e matches MsfError::Transport(se) && se != SourceError::UnexpectedEof)
                ||| {
                    let hv = source.data().subrange(0, 4096);
                    &&& source.data().len() >= 4096
                    &&& {
                        ||| (has_big_magic(hv) && big_new_err(hv, e))
                        ||| (!has_big_magic(hv) && has_small_magic(hv) && small_new_err(hv, e))
                    }
                }
            },
        },
        r matches Ok(m2) ==> (source.reliable() ==> m2.reliable()),
        source.reliable() && source.data().len() < 4096 ==> r == Err::<MsfReader<S>, MsfError>(
            MsfError::UnrecognizedFileFormat,
        ),
        source.reliable() && source.data().len() >= 4096 ==> ({
            let hv = source.data().subrange(0, 4096);
            if has_big_magic(hv) {
                (r is Ok) == big_new_ok(hv)
            } else if has_small_magic(hv) {
                (r is Ok) == small_new_ok(hv)
            } else {
                r == Err::<MsfReader<S>, MsfError>(MsfError::UnrecognizedFileFormat)
            }
        }),
{
    let mut source = source;
    let ghost data = source.data();
    let ghost initial_requests = source.requests();
    let mut header_location = PageList::new(4096);
    header_location.push(0);
    proof {
        assert(header_location.pages@ =~= seq![0u32]);
        assert(seq![0u32].drop_first() =~= Seq::<u32>::empty());
        let sl = slices_rec(4096, seq![0u32], 4096);
        assert(sl == seq![header_slice()] + slices_rec(4096, Seq::<u32>::empty(), 0));
        assert(sl =~= seq![header_slice()]);
        if data.len() >= 4096 {
            assert forall|i: int| 0 <= i < seq![header_slice()].len() implies range_in_bounds(
                data,
                #[trigger] seq![header_slice()][i],
            ) by {
                assert(seq![header_slice()][i] == header_slice());
            }
            assert(ranges_in_bounds(data, seq![header_slice()]));
        }
    }
    let header_view = match fetch(&mut source, &header_location) {
        Ok(v) => {
            proof {
                let sl = seq![header_slice()];
                assert(sl[0] == header_slice());
                assert(sl.drop_first() =~= Seq::<SourceSlice>::empty());
                assert(range_in_bounds(data, header_slice()));
                assert(data.len() >= 4096);
                assert(concat_ranges(data, sl) == data.subrange(0, 4096) + concat_ranges(
                    data,
                    sl.drop_first(),
                ));
                assert(data.subrange(0, 4096) + concat_ranges(data, Seq::<SourceSlice>::empty())
                    =~= data.subrange(0, 4096));
                assert(v@ =~= data.subrange(0, 4096));
            }
            v
        },
        Err(e) => {
            match e {
                MsfError::Transport(se) => {
                    match se {
                        SourceError::UnexpectedEof => {
                            return Err(MsfError::UnrecognizedFileFormat);
                        },
                        SourceError::Other => {
                            return Err(MsfError::Transport(se));
                        },
                    }
                },
                _ => {
                    return Err(e);
                },
            }
        },
    };
    if check_big_magic(&header_view) {
        return match BigMSF::new(source, header_view) {
            Ok(m) => Ok(MsfReader::Big(m)),
            Err(e) => Err(e),
        };
    }
    if check_small_magic(&header_view) {
        return match SmallMSF::new(source, header_view) {
            Ok(m) => Ok(MsfReader::Small(m)),
            Err(e) => Err(e),
        };
    }
    Err(MsfError::UnrecognizedFileFormat)
}

} // verus!
