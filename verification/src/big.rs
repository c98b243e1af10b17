//! The Big MSF (version 7.00) reader: header parsing, the double-indirect
//! stream-table resolution, and stream lookup.

use vstd::prelude::*;

use crate::bytes::le32_at;
use crate::bytes::parse_u32;
use crate::bytes::lemma_read_pages32_len;
use crate::bytes::read_pages32;
use crate::bytes::skip_bytes;
use crate::errors::MsfError;
use crate::header::is_valid_page_size;
use crate::header::lemma_pages_for_basics;
use crate::header::lemma_pages_for_monotone;
use crate::header::pages_for;
use crate::header::valid_page_size;
use crate::header::Header;
use crate::msf::check_big_magic;
use crate::msf::fetch;
use crate::msf::has_big_magic;
use crate::msf::limited_len;
use crate::msf::Msf;
use crate::msf::Stream;
use crate::msf::StreamTable;
use crate::page_list::gather;
use crate::page_list::lemma_gather_round_trip;
use crate::page_list::page_holds_chunk;
use crate::page_list::slices_rec;
use crate::page_list::ranges_in_bounds;
use crate::page_list::PageList;
use crate::page_list::SourceSlice;
use crate::source::Source;

verus! {

/// The page size field of a Big MSF header page.
pub open spec fn big_page_size(hv: Seq<u8>) -> u32 {
    le32_at(hv, 32)
}

/// The pages-used field of a Big MSF header page: the maximum valid page
/// number.
pub open spec fn big_pages_used(hv: Seq<u8>) -> u32 {
    le32_at(hv, 40)
}

/// The directory-size field of a Big MSF header page.
pub open spec fn big_dir_size(hv: Seq<u8>) -> u32 {
    le32_at(hv, 44)
}

/// How many page numbers the streams before stream `i` occupy in the
/// directory `d`: the sum, over the first `i` sizes, of the pages needed to
/// store each present stream (the all-ones sentinel contributes none).
pub open spec fn big_pages_before(d: Seq<u8>, ps: int, i: int) -> int
    decreases i,
{
    if i <= 0 {
        0
    } else {
        big_pages_before(d, ps, i - 1) + {
            let sz = le32_at(d, 4 + 4 * (i - 1));
            if sz == 0xFFFF_FFFFu32 {
                0
            } else {
                pages_for(sz as int, ps)
            }
        }
    }
}

/// What looking up stream `n` in the Big directory bytes `d` yields: the
/// stream's page numbers and size in bytes, or the determined error.
///
/// The directory holds a 32-bit stream count, then one 32-bit size per
/// stream (all-ones meaning the stream does not exist), then the page
/// numbers of every present stream in order.
pub open spec fn big_lookup(d: Seq<u8>, ps: int, max: u32, n: u32) -> Result<
    (Seq<u32>, u32),
    MsfError,
> {
    if d.len() < 4 {
        Err(MsfError::ParseError)
    } else {
        let count = le32_at(d, 0);
        if n >= count {
            Err(MsfError::StreamNotFound(n))
        } else if 4 + 4 * (n as int + 1) > d.len() {
            Err(MsfError::ParseError)
        } else {
            let sz = le32_at(d, 4 + 4 * (n as int));
            if sz == 0xFFFF_FFFFu32 {
                Err(MsfError::StreamNotFound(n))
            } else if 4 + 4 * (count as int) > d.len() {
                Err(MsfError::ParseError)
            } else {
                let skip = big_pages_before(d, ps, n as int);
                if 4 + 4 * (count as int) + 4 * skip > d.len() {
                    Err(MsfError::ParseError)
                } else {
                    match read_pages32(
                        d,
                        4 + 4 * (count as int) + 4 * skip,
                        pages_for(sz as int, ps) as nat,
                        max,
                    ) {
                        Ok(pgs) => Ok((pgs, sz)),
                        Err(e) => Err(e),
                    }
                }
            }
        }
    }
}

/// What `get` returns for stream `n` under `limit`, given the underlying
/// file bytes, the geometry, and the resolved directory (or its error).
pub open spec fn big_stream_result(
    data: Seq<u8>,
    ps: int,
    max: u32,
    dir: Result<Seq<u8>, MsfError>,
    n: u32,
    limit: Option<usize>,
) -> Result<Seq<u8>, MsfError> {
    match dir {
        Err(e) => Err(e),
        Ok(d) => match big_lookup(d, ps, max, n) {
            Err(e) => Err(e),
            Ok(pgs_sz) => {
                let len = limited_len(pgs_sz.1, limit);
                Ok(gather(data, ps, pgs_sz.0.take(pages_for(len, ps)), len))
            },
        },
    }
}

/// Law: the round trip, at the reader's level.  When the directory bytes
/// `d` list stream `n` with `content`'s size and the pages they name hold
/// `content` chunk by chunk, looking the stream up yields exactly
/// `content`.
pub proof fn lemma_big_stream_round_trip(
    data: Seq<u8>,
    ps: int,
    max: u32,
    d: Seq<u8>,
    n: u32,
    content: Seq<u8>,
)
    requires
        0x100 <= ps <= 0x80_0000,
        big_lookup(d, ps, max, n) matches Ok(pgs_sz) && pgs_sz.1 == content.len(),
        ({
            let pgs = big_lookup(d, ps, max, n)->Ok_0.0;
            &&& forall|k: int| 0 <= k < pgs.len() ==> #[trigger] (pgs[k] * ps) + ps <= data.len()
            &&& forall|k: int|
                0 <= k < pgs.len() ==> #[trigger] page_holds_chunk(data, ps, pgs[k], content, k)
        }),
    ensures
        big_stream_result(data, ps, max, Ok(d), n, None) == Ok::<Seq<u8>, MsfError>(content),
{
    let pgs_sz = big_lookup(d, ps, max, n)->Ok_0;
    let pgs = pgs_sz.0;
    let count = le32_at(d, 0);
    let skip = big_pages_before(d, ps, n as int);
    lemma_read_pages32_len(
        d,
        4 + 4 * (count as int) + 4 * skip,
        pages_for(pgs_sz.1 as int, ps) as nat,
        max,
    );
    assert(pgs.len() == pages_for(content.len() as int, ps));
    assert(pgs.take(pages_for(content.len() as int, ps)) =~= pgs);
    lemma_gather_round_trip(data, ps, pgs, content);
}

/// Reads `count` 32-bit page numbers from `d` at `*pos`, validating each,
/// and returns them as a page list truncated to `cap` bytes.
pub fn read_page_list32(header: &Header, count: usize, cap: u64, d: &Vec<u8>, pos: &mut usize) -> (r:
    Result<PageList, MsfError>)
    requires
        header.wf(),
        *old(pos) <= d@.len(),
        count <= 0x100_0000,
    ensures
        match r {
            Ok(pl) => {
                &&& read_pages32(
                    d@,
                    *old(pos) as int,
                    count as nat,
                    header.maximum_valid_page_number,
                ) matches Ok(pgs)
                &&& pgs.len() == count
                &&& pl.wf()
                &&& pl.page_size == header.page_size
                &&& pl.length as int == {
                    let full = count as int * header.page_size as int;
                    if (cap as int) < full {
                        cap as int
                    } else {
                        full
                    }
                }
                &&& pl.pages@ == pgs.take(pages_for(pl.length as int, header.page_size as int))
                &&& *final(pos) == *old(pos) + 4 * count
            },
            Err(e) => read_pages32(
                d@,
                *old(pos) as int,
                count as nat,
                header.maximum_valid_page_number,
            ) == Err::<Seq<u32>, MsfError>(e),
        },
{
    let ghost dd = d@;
    let ghost start = *pos as int;
    let ghost max = header.maximum_valid_page_number;
    let mut pl = PageList::new(header.page_size);
    let mut i: usize = 0;
    proof {
        assert(pl.pages@ + read_pages32(dd, start, count as nat, max)->Ok_0 =~= read_pages32(
            dd,
            start,
            count as nat,
            max,
        )->Ok_0);
    }
    while i < count
        invariant
            header.wf(),
            dd == d@,
            start == *old(pos) as int,
            max == header.maximum_valid_page_number,
            i <= count,
            count <= 0x100_0000,
            pl.wf(),
            pl.is_full(),
            pl.page_size == header.page_size,
            pl.pages@.len() == i,
            *pos as int == start + 4 * (i as int),
            *pos <= dd.len(),
            read_pages32(dd, start, count as nat, max) == (match read_pages32(
                dd,
                start + 4 * (i as int),
                (count - i) as nat,
                max,
            ) {
                Ok(rest) => Ok::<Seq<u32>, MsfError>(pl.pages@ + rest),
                Err(e) => Err::<Seq<u32>, MsfError>(e),
            }),
        decreases count - i,
    {
        let n: u32 = match parse_u32(d, pos) {
            Ok(v) => v,
            Err(e) => {
                return Err(e);
            },
        };
        let p: u32 = match header.validate_page_number(n) {
            Ok(p) => p,
            Err(e) => {
                return Err(e);
            },
        };
        proof {
            let tail = read_pages32(dd, start + 4 * (i as int + 1), (count - i - 1) as nat, max);
            assert(read_pages32(dd, start + 4 * (i as int), (count - i) as nat, max) == (match tail {
                Ok(rest) => Ok::<Seq<u32>, MsfError>(seq![p] + rest),
                Err(e) => Err::<Seq<u32>, MsfError>(e),
            }));
            if tail is Ok {
                assert(pl.pages@ + (seq![p] + tail->Ok_0) =~= pl.pages@.push(p) + tail->Ok_0);
            }
        }
        pl.push(p);
        i = i + 1;
    }
    proof {
        assert(read_pages32(dd, start + 4 * (i as int), 0, max) == Ok::<Seq<u32>, MsfError>(
            Seq::empty(),
        ));
        assert(pl.pages@ + Seq::<u32>::empty() =~= pl.pages@);
        lemma_pages_for_basics(cap as int, header.page_size as int);
    }
    pl.truncate(cap);
    Ok(pl)
}

/// Looks up stream `stream_number` in the directory bytes `d`: walks the
/// sizes of the streams before it, skips their page numbers, and reads and
/// validates the requested stream's page numbers.
pub fn big_lookup_in_table(header: &Header, d: &Vec<u8>, stream_number: u32) -> (r: Result<
    PageList,
    MsfError,
>)
    requires
        header.wf(),
        d@.len() <= 0xFFFF_FFFF,
    ensures
        match r {
            Ok(pl) => {
                &&& big_lookup(
                    d@,
                    header.page_size as int,
                    header.maximum_valid_page_number,
                    stream_number,
                ) matches Ok(pgs_sz)
                &&& pl.wf()
                &&& pl.page_size == header.page_size
                &&& pl.length == pgs_sz.1
                &&& pgs_sz.0.len() == pages_for(pgs_sz.1 as int, header.page_size as int)
                &&& pl.pages@ == pgs_sz.0.take(
                    pages_for(pgs_sz.1 as int, header.page_size as int),
                )
            },
            Err(e) => big_lookup(
                d@,
                header.page_size as int,
                header.maximum_valid_page_number,
                stream_number,
            ) == Err::<(Seq<u32>, u32), MsfError>(e),
        },
{
    let ghost dd = d@;
    let ghost ps = header.page_size as int;
    let ghost max = header.maximum_valid_page_number;
    let mut pos: usize = 0;
    let stream_count: u32 = match parse_u32(d, &mut pos) {
        Ok(v) => v,
        Err(e) => {
            return Err(e);
        },
    };
    if stream_number >= stream_count {
        return Err(MsfError::StreamNotFound(stream_number));
    }
    let mut pages_to_skip: u64 = 0;
    let mut j: u32 = 0;
    while j < stream_number
        invariant
            header.wf(),
            dd == d@,
            ps == header.page_size as int,
            max == header.maximum_valid_page_number,
            dd.len() <= 0xFFFF_FFFF,
            j <= stream_number,
            stream_number < stream_count,
            stream_count == le32_at(dd, 0),
            dd.len() >= 4,
            pos as int == 4 + 4 * (j as int),
            pos <= dd.len(),
            pages_to_skip as int == big_pages_before(dd, ps, j as int),
            pages_to_skip as int <= 0x100_0000 * (j as int),
        decreases stream_number - j,
    {
        let bytes: u32 = match parse_u32(d, &mut pos) {
            Ok(v) => v,
            Err(e) => {
                return Err(e);
            },
        };
        proof {
            assert(le32_at(dd, 4 + 4 * (j as int)) == bytes);
            assert(big_pages_before(dd, ps, j as int + 1) == big_pages_before(dd, ps, j as int) + (
            if bytes == 0xFFFF_FFFFu32 {
                0int
            } else {
                pages_for(bytes as int, ps)
            }));
        }
        if bytes != 0xFFFF_FFFF {
            let p: usize = header.pages_needed_to_store(bytes as usize);
            pages_to_skip = pages_to_skip + p as u64;
        }
        j = j + 1;
    }
    let bytes_in_stream: u32 = match parse_u32(d, &mut pos) {
        Ok(v) => v,
        Err(e) => {
            return Err(e);
        },
    };
    if bytes_in_stream == 0xFFFF_FFFF {
        return Err(MsfError::StreamNotFound(stream_number));
    }
    let pages_in_stream: usize = header.pages_needed_to_store(bytes_in_stream as usize);
    let rem_sizes: u64 = ((stream_count - stream_number - 1) as u64) * 4;
    match skip_bytes(d, &mut pos, rem_sizes) {
        Ok(_) => {},
        Err(e) => {
            return Err(e);
        },
    }
    match skip_bytes(d, &mut pos, pages_to_skip * 4) {
        Ok(_) => {},
        Err(e) => {
            return Err(e);
        },
    }
    let pl = match read_page_list32(header, pages_in_stream, bytes_in_stream as u64, d, &mut pos) {
        Ok(pl) => pl,
        Err(e) => {
            return Err(e);
        },
    };
    proof {
        lemma_pages_for_basics(bytes_in_stream as int, ps);
    }
    Ok(pl)
}

/// Whether construction from the header page `hv` succeeds, and what the
/// constructed reader's header and stream table then hold.
pub open spec fn big_new_post<S: Source>(hv: Seq<u8>, m: BigMSF<S>) -> bool {
    let ps = big_page_size(hv) as int;
    let dir_pages = pages_for(big_dir_size(hv) as int, ps);
    let inline_size = 4 * dir_pages;
    let inline_count = pages_for(inline_size, ps);
    &&& hv.len() >= 52
    &&& has_big_magic(hv)
    &&& valid_page_size(ps)
    &&& m.header.page_size as int == ps
    &&& m.header.maximum_valid_page_number == big_pages_used(hv)
    &&& read_pages32(hv, 52, inline_count as nat, big_pages_used(hv)) matches Ok(pgs)
    &&& m.stream_table matches StreamTable::HeaderOnly { size_in_bytes, location_location }
    &&& size_in_bytes == big_dir_size(hv) as u64
    &&& location_location.page_size as int == ps
    &&& location_location.length as int == inline_size
    &&& location_location.pages@ == pgs
}

/// The error construction from the header page `hv` reports, when it fails.
pub open spec fn big_new_err(hv: Seq<u8>, e: MsfError) -> bool {
    let ps = big_page_size(hv) as int;
    let dir_pages = pages_for(big_dir_size(hv) as int, ps);
    let inline_count = pages_for(4 * dir_pages, ps);
    ||| (hv.len() < 52 && e == MsfError::ParseError)
    ||| (hv.len() >= 52 && !has_big_magic(hv) && e == MsfError::UnrecognizedFileFormat)
    ||| (hv.len() >= 52 && has_big_magic(hv) && !valid_page_size(ps) && e
        == MsfError::InvalidPageSize(big_page_size(hv)))
    ||| (hv.len() >= 52 && has_big_magic(hv) && valid_page_size(ps) && read_pages32(
        hv,
        52,
        inline_count as nat,
        big_pages_used(hv),
    ) == Err::<Seq<u32>, MsfError>(e))
}

/// Whether construction from the header page `hv` succeeds at all.
pub open spec fn big_new_ok(hv: Seq<u8>) -> bool {
    let ps = big_page_size(hv) as int;
    let dir_pages = pages_for(big_dir_size(hv) as int, ps);
    let inline_count = pages_for(4 * dir_pages, ps);
    &&& hv.len() >= 52
    &&& has_big_magic(hv)
    &&& valid_page_size(ps)
    &&& read_pages32(hv, 52, inline_count as nat, big_pages_used(hv)) is Ok
}

/// A reader for the Big MSF (version 7.00) container format.
pub struct BigMSF<S> {
    /// The validated geometry.
    pub header: Header,
    /// The transport the container is read through.
    pub source: S,
    /// The stream table, at whatever stage of access it has reached.
    pub stream_table: StreamTable,
}

impl<S: Source> BigMSF<S> {
    /// The directory bytes this reader's state determines, or the parse
    /// error that resolving the directory reports.  The result does not
    /// change as the stream table advances through its lifecycle.
    pub open spec fn dir_result(self) -> Result<Seq<u8>, MsfError> {
        match self.stream_table {
            StreamTable::Available { table } => Ok(table@),
            StreamTable::TableFound { location } => Ok(
                gather(
                    self.source.data(),
                    location.page_size as int,
                    location.pages@,
                    location.length as int,
                ),
            ),
            StreamTable::HeaderOnly { size_in_bytes, location_location } => {
                let b = gather(
                    self.source.data(),
                    location_location.page_size as int,
                    location_location.pages@,
                    location_location.length as int,
                );
                let k = b.len() / 4;
                match read_pages32(b, 0, k as nat, self.header.maximum_valid_page_number) {
                    Err(e) => Err(e),
                    Ok(pgs) => {
                        if b.len() % 4 != 0 {
                            Err(MsfError::ParseError)
                        } else {
                            let ps = self.header.page_size as int;
                            let full = k as int * ps;
                            let len = if (size_in_bytes as int) < full {
                                size_in_bytes as int
                            } else {
                                full
                            };
                            Ok(gather(self.source.data(), ps, pgs.take(pages_for(len, ps)), len))
                        }
                    },
                }
            },
        }
    }

    /// Whether resolving the directory succeeds over a reliable transport:
    /// every byte range the resolution fetches lies within the file, and
    /// the page-list-of-page-list parses.  Trivial once the table is
    /// `Available`.
    pub open spec fn dir_fetchable(self) -> bool {
        match self.stream_table {
            StreamTable::Available { .. } => true,
            StreamTable::TableFound { location } => ranges_in_bounds(
                self.source.data(),
                slices_rec(location.page_size as int, location.pages@, location.length as int),
            ),
            StreamTable::HeaderOnly { size_in_bytes, location_location } => {
                let data = self.source.data();
                let ps = self.header.page_size as int;
                let b = gather(
                    data,
                    location_location.page_size as int,
                    location_location.pages@,
                    location_location.length as int,
                );
                let k = b.len() / 4;
                &&& ranges_in_bounds(
                    data,
                    slices_rec(
                        location_location.page_size as int,
                        location_location.pages@,
                        location_location.length as int,
                    ),
                )
                &&& b.len() % 4 == 0
                &&& read_pages32(b, 0, k as nat, self.header.maximum_valid_page_number) is Ok
                &&& ({
                    let pgs = read_pages32(
                        b,
                        0,
                        k as nat,
                        self.header.maximum_valid_page_number,
                    )->Ok_0;
                    let full = k as int * ps;
                    let len = if (size_in_bytes as int) < full {
                        size_in_bytes as int
                    } else {
                        full
                    };
                    ranges_in_bounds(data, slices_rec(ps, pgs.take(pages_for(len, ps)), len))
                })
            },
        }
    }

    /// Parses the Big MSF header page and builds a reader whose stream
    /// table starts in the `HeaderOnly` stage.
    pub fn new(source: S, header_view: Vec<u8>) -> (r: Result<BigMSF<S>, MsfError>)
        ensures
            match r {
                Ok(m) => big_new_post(header_view@, m) && m.wf() && m.source == source,
                Err(e) => big_new_err(header_view@, e),
            },
    {
        if header_view.len() < 52 {
            return Err(MsfError::ParseError);
        }
        if !check_big_magic(&header_view) {
            return Err(MsfError::UnrecognizedFileFormat);
        }
        let mut pos: usize = 32;
        let page_size_raw: u32 = match parse_u32(&header_view, &mut pos) {
            Ok(v) => v,
            Err(e) => {
                return Err(e);
            },
        };
        let free_page_map: u32 = match parse_u32(&header_view, &mut pos) {
            Ok(v) => v,
            Err(e) => {
                return Err(e);
            },
        };
        let pages_used: u32 = match parse_u32(&header_view, &mut pos) {
            Ok(v) => v,
            Err(e) => {
                return Err(e);
            },
        };
        let directory_size: u32 = match parse_u32(&header_view, &mut pos) {
            Ok(v) => v,
            Err(e) => {
                return Err(e);
            },
        };
        let reserved: u32 = match parse_u32(&header_view, &mut pos) {
            Ok(v) => v,
            Err(e) => {
                return Err(e);
            },
        };
        let _ = free_page_map;
        let _ = reserved;
        if !is_valid_page_size(page_size_raw) {
            return Err(MsfError::InvalidPageSize(page_size_raw));
        }
        let header = Header {
            page_size: page_size_raw as usize,
            maximum_valid_page_number: pages_used,
        };
        let dir_pages: usize = header.pages_needed_to_store(directory_size as usize);
        let inline_size: usize = 4 * dir_pages;
        let inline_count: usize = header.pages_needed_to_store(inline_size);
        let pl = match read_page_list32(
            &header,
            inline_count,
            inline_size as u64,
            &header_view,
            &mut pos,
        ) {
            Ok(pl) => pl,
            Err(e) => {
                return Err(e);
            },
        };
        proof {
            lemma_pages_for_basics(inline_size as int, header.page_size as int);
            lemma_pages_for_basics(directory_size as int, header.page_size as int);
            let pgs = read_pages32(
                header_view@,
                52,
                inline_count as nat,
                pages_used,
            )->Ok_0;
            assert(pgs.take(pages_for(inline_size as int, header.page_size as int)) =~= pgs);
        }
        Ok(
            BigMSF {
                header,
                source,
                stream_table: StreamTable::HeaderOnly {
                    size_in_bytes: directory_size as u64,
                    location_location: pl,
                },
            },
        )
    }

    /// Advances the stream table from `HeaderOnly` to `TableFound`: reads
    /// the pages named in the header and parses from them the pages where
    /// the directory itself lives.  Does nothing at later stages.
    fn find_stream_table(&mut self) -> (r: Result<(), MsfError>)
        requires
            old(self).wf(),
        ensures
            final(self).wf(),
            final(self).header == old(self).header,
            final(self).source.data() == old(self).source.data(),
            final(self).dir_result() == old(self).dir_result(),
            !(old(self).stream_table is HeaderOnly) ==> *final(self) == *old(self) && r matches Ok(_),
            r matches Ok(_) ==> !(final(self).stream_table is HeaderOnly),
            old(self).source.reliable() ==> final(self).source.reliable(),
            old(self).source.reliable() && old(self).dir_fetchable() ==> (r matches Ok(_)) && final(self).dir_fetchable(),
            r matches Err(e) ==> final(self).stream_table == old(self).stream_table && ((
            e matches MsfError::Transport(_)) || old(self).dir_result() == Err::<
                Seq<u8>,
                MsfError,
            >(e)),
    {
        match &self.stream_table {
            StreamTable::HeaderOnly { .. } => {},
            _ => {
                return Ok(());
            },
        }
        let (size, b) = match &self.stream_table {
            StreamTable::HeaderOnly { size_in_bytes, location_location } => {
                let size: u64 = *size_in_bytes;
                match fetch(&mut self.source, location_location) {
                    Ok(v) => (size, v),
                    Err(e) => {
                        return Err(e);
                    },
                }
            },
            _ => {
                return Ok(());
            },
        };
        let header = self.header;
        let mut pos: usize = 0;
        let k: usize = b.len() / 4;
        let pl = match read_page_list32(&header, k, size, &b, &mut pos) {
            Ok(pl) => pl,
            Err(e) => {
                return Err(e);
            },
        };
        if b.len() % 4 != 0 {
            return Err(MsfError::ParseError);
        }
        self.stream_table = StreamTable::TableFound { location: pl };
        Ok(())
    }

    /// Ensures the stream table is `Available`: resolves its location if
    /// needed, then reads and caches its bytes.
    fn make_stream_table_available(&mut self) -> (r: Result<(), MsfError>)
        requires
            old(self).wf(),
        ensures
            final(self).wf(),
            final(self).header == old(self).header,
            final(self).source.data() == old(self).source.data(),
            final(self).dir_result() == old(self).dir_result(),
            r matches Ok(_) ==> final(self).stream_table is Available,
            r matches Err(e) ==> (e matches MsfError::Transport(_)) || old(self).dir_result()
                == Err::<Seq<u8>, MsfError>(e),
            r matches Err(_) ==> final(self).stream_table == old(self).stream_table || (old(self).stream_table is HeaderOnly && final(self).stream_table is TableFound),
            old(self).source.reliable() ==> final(self).source.reliable(),
            old(self).source.reliable() && old(self).dir_fetchable() ==> (r matches Ok(_)),
            old(self).stream_table is Available ==> *final(self) == *old(self) && r matches Ok(_),
    {
        match self.find_stream_table() {
            Ok(_) => {},
            Err(e) => {
                return Err(e);
            },
        }
        match &self.stream_table {
            StreamTable::TableFound { location } => {
                let v = match fetch(&mut self.source, location) {
                    Ok(v) => v,
                    Err(e) => {
                        return Err(e);
                    },
                };
                self.stream_table = StreamTable::Available { table: v };
                Ok(())
            },
            _ => Ok(()),
        }
    }

    /// Resolves the directory if needed, then looks up the requested
    /// stream's page list in it.
    fn look_up_stream(&mut self, stream_number: u32) -> (r: Result<PageList, MsfError>)
        requires
            old(self).wf(),
        ensures
            final(self).wf(),
            final(self).header == old(self).header,
            final(self).source.data() == old(self).source.data(),
            final(self).dir_result() == old(self).dir_result(),
            old(self).stream_table is Available ==> *final(self) == *old(self),
            old(self).stream_table is Available ==> (old(self).dir_result() matches Ok(d2)
                && (match big_lookup(
                d2,
                old(self).header.page_size as int,
                old(self).header.maximum_valid_page_number,
                stream_number,
            ) {
                Ok(_) => r is Ok,
                Err(e2) => r == Err::<PageList, MsfError>(e2),
            })),
            old(self).source.reliable() ==> final(self).source.reliable(),
            old(self).source.reliable() && old(self).dir_fetchable() ==> (old(self).dir_result() matches Ok(d3) && (match big_lookup(
                d3,
                old(self).header.page_size as int,
                old(self).header.maximum_valid_page_number,
                stream_number,
            ) {
                Ok(_) => r is Ok,
                Err(e3) => r == Err::<PageList, MsfError>(e3),
            })),
            match r {
                Ok(pl) => {
                    &&& final(self).stream_table is Available
                    &&& old(self).dir_result() matches Ok(d)
                    &&& big_lookup(
                        d,
                        old(self).header.page_size as int,
                        old(self).header.maximum_valid_page_number,
                        stream_number,
                    ) matches Ok(pgs_sz)
                    &&& pl.wf()
                    &&& pl.page_size == old(self).header.page_size
                    &&& pl.length == pgs_sz.1
                    &&& pgs_sz.0.len() == pages_for(
                        pgs_sz.1 as int,
                        old(self).header.page_size as int,
                    )
                    &&& pl.pages@ == pgs_sz.0.take(
                        pages_for(pgs_sz.1 as int, old(self).header.page_size as int),
                    )
                },
                Err(e) => {
                    ||| e matches MsfError::Transport(_)
                    ||| old(self).dir_result() == Err::<Seq<u8>, MsfError>(e)
                    ||| (old(self).dir_result() matches Ok(d) && big_lookup(
                        d,
                        old(self).header.page_size as int,
                        old(self).header.maximum_valid_page_number,
                        stream_number,
                    ) == Err::<(Seq<u32>, u32), MsfError>(e))
                },
            },
    {
        match self.make_stream_table_available() {
            Ok(_) => {},
            Err(e) => {
                return Err(e);
            },
        }
        let header = self.header;
        match &self.stream_table {
            StreamTable::Available { table } => big_lookup_in_table(&header, table, stream_number),
            // unreachable: the table is Available after the call above
            _ => Err(MsfError::ParseError),
        }
    }
}

impl<S: Source> Msf<S> for BigMSF<S> {
    open spec fn wf(self) -> bool {
        &&& self.header.wf()
        &&& match self.stream_table {
            StreamTable::HeaderOnly { size_in_bytes, location_location } => {
                &&& location_location.wf()
                &&& location_location.page_size == self.header.page_size
                &&& size_in_bytes <= 0xFFFF_FFFF
                &&& location_location.length <= 0x400_0000
            },
            StreamTable::TableFound { location } => {
                &&& location.wf()
                &&& location.page_size == self.header.page_size
                &&& location.length <= 0xFFFF_FFFF
            },
            StreamTable::Available { table } => table@.len() <= 0xFFFF_FFFF,
        }
    }

    open spec fn data(self) -> Seq<u8> {
        self.source.data()
    }

    open spec fn requests(self) -> Seq<SourceSlice> {
        self.source.requests()
    }

    open spec fn dir_loaded(self) -> bool {
        self.stream_table is Available
    }

    open spec fn reliable(self) -> bool {
        self.source.reliable()
    }

    open spec fn dir_loadable(self) -> bool {
        self.dir_fetchable()
    }

    open spec fn stream_result(self, stream_number: u32, limit: Option<usize>) -> Result<
        Seq<u8>,
        MsfError,
    > {
        big_stream_result(
            self.source.data(),
            self.header.page_size as int,
            self.header.maximum_valid_page_number,
            self.dir_result(),
            stream_number,
            limit,
        )
    }

    open spec fn stream_slices(self, stream_number: u32, limit: Option<usize>) -> Seq<SourceSlice> {
        match self.dir_result() {
            Err(_) => Seq::empty(),
            Ok(d) => match big_lookup(
                d,
                self.header.page_size as int,
                self.header.maximum_valid_page_number,
                stream_number,
            ) {
                Err(_) => Seq::empty(),
                Ok(pgs_sz) => {
                    let ps = self.header.page_size as int;
                    let len = limited_len(pgs_sz.1, limit);
                    slices_rec(ps, pgs_sz.0.take(pages_for(len, ps)), len)
                },
            },
        }
    }

    fn get(&mut self, stream_number: u32, limit: Option<usize>) -> (r: Result<Stream, MsfError>) {
        let mut page_list = match self.look_up_stream(stream_number) {
            Ok(pl) => pl,
            Err(e) => {
                return Err(e);
            },
        };
        let ghost ps = self.header.page_size as int;
        let ghost max = self.header.maximum_valid_page_number;
        let ghost d = old(self).dir_result()->Ok_0;
        let ghost pgs_sz = big_lookup(d, ps, max, stream_number)->Ok_0;
        let ghost lim_len = limited_len(pgs_sz.1, limit);
        match limit {
            Some(l) => {
                page_list.truncate(l as u64);
            },
            None => {},
        }
        proof {
            lemma_pages_for_monotone(lim_len, pgs_sz.1 as int, ps);
            assert(page_list.length as int == lim_len);
            assert(page_list.pages@ =~= pgs_sz.0.take(pages_for(lim_len, ps)));
        }
        let v = match fetch(&mut self.source, &page_list) {
            Ok(v) => v,
            Err(e) => {
                return Err(e);
            },
        };
        Ok(Stream { bytes: v })
    }
}

} // verus!
