//! The Small MSF (version 2.00) reader: header parsing, the inline
//! stream-table location, and stream lookup with 16-bit page numbers.

use vstd::prelude::*;

use crate::bytes::le16_at;
use crate::bytes::le32_at;
use crate::bytes::parse_u16;
use crate::bytes::parse_u32;
use crate::bytes::lemma_read_pages16_len;
use crate::bytes::read_pages16;
use crate::bytes::skip_bytes;
use crate::errors::MsfError;
use crate::header::is_valid_page_size;
use crate::header::lemma_pages_for_basics;
use crate::header::lemma_pages_for_monotone;
use crate::header::pages_for;
use crate::header::valid_page_size;
use crate::header::Header;
use crate::msf::check_small_magic;
use crate::msf::fetch;
use crate::msf::has_small_magic;
use crate::msf::limited_len;
use crate::msf::Msf;
use crate::msf::Stream;
use crate::msf::StreamTable;
use crate::page_list::gather;
use crate::page_list::lemma_gather_round_trip;
use crate::page_list::page_holds_chunk;
use crate::page_list::slices_rec;
use crate::page_list::ranges_in_bounds;
use crate::page_list::PageList;
use crate::page_list::SourceSlice;
use crate::source::Source;

verus! {

/// The page size field of a Small MSF header page.
pub open spec fn small_page_size(hv: Seq<u8>) -> u32 {
    le32_at(hv, 44)
}

/// The pages-used field of a Small MSF header page: the maximum valid page
/// number, stored in 16 bits.
pub open spec fn small_pages_used(hv: Seq<u8>) -> u16 {
    le16_at(hv, 50)
}

/// The directory-size field of a Small MSF header page.
pub open spec fn small_dir_size(hv: Seq<u8>) -> u32 {
    le32_at(hv, 52)
}

/// How many page numbers the streams before stream `i` occupy in the Small
/// directory `d`, whose size entries are pairs of a 32-bit size and a
/// 32-bit reserved word.
pub open spec fn small_pages_before(d: Seq<u8>, ps: int, i: int) -> int
    decreases i,
{
    if i <= 0 {
        0
    } else {
        small_pages_before(d, ps, i - 1) + {
            let sz = le32_at(d, 4 + 8 * (i - 1));
            if sz == 0xFFFF_FFFFu32 {
                0
            } else {
                pages_for(sz as int, ps)
            }
        }
    }
}

/// What looking up stream `n` in the Small directory bytes `d` yields.
///
/// The directory holds a 16-bit stream count and a 16-bit reserved word,
/// then per stream a 32-bit size (all-ones meaning absent) and a 32-bit
/// reserved word, then the 16-bit page numbers of every present stream.
pub open spec fn small_lookup(d: Seq<u8>, ps: int, max: u32, n: u32) -> Result<
    (Seq<u32>, u32),
    MsfError,
> {
    if d.len() < 4 {
        Err(MsfError::ParseError)
    } else {
        let count = le16_at(d, 0) as u32;
        if n >= count {
            Err(MsfError::StreamNotFound(n))
        } else if 4 + 8 * (n as int + 1) > d.len() {
            Err(MsfError::ParseError)
        } else {
            let sz = le32_at(d, 4 + 8 * (n as int));
            if sz == 0xFFFF_FFFFu32 {
                Err(MsfError::StreamNotFound(n))
            } else if 4 + 8 * (count as int) > d.len() {
                Err(MsfError::ParseError)
            } else {
                let skip = small_pages_before(d, ps, n as int);
                if 4 + 8 * (count as int) + 2 * skip > d.len() {
                    Err(MsfError::ParseError)
                } else {
                    match read_pages16(
                        d,
                        4 + 8 * (count as int) + 2 * skip,
                        pages_for(sz as int, ps) as nat,
                        max,
                    ) {
                        Ok(pgs) => Ok((pgs, sz)),
                        Err(e) => Err(e),
                    }
                }
            }
        }
    }
}

/// What `get` returns for stream `n` under `limit`, given the underlying
/// file bytes, the geometry, and the resolved directory (or its error).
pub open spec fn small_stream_result(
    data: Seq<u8>,
    ps: int,
    max: u32,
    dir: Result<Seq<u8>, MsfError>,
    n: u32,
    limit: Option<usize>,
) -> Result<Seq<u8>, MsfError> {
    match dir {
        Err(e) => Err(e),
        Ok(d) => match small_lookup(d, ps, max, n) {
            Err(e) => Err(e),
            Ok(pgs_sz) => {
                let len = limited_len(pgs_sz.1, limit);
                Ok(gather(data, ps, pgs_sz.0.take(pages_for(len, ps)), len))
            },
        },
    }
}

/// Law: the round trip, at the reader's level.  When the directory bytes
/// `d` list stream `n` with `content`'s size and the pages they name hold
/// `content` chunk by chunk, looking the stream up yields exactly
/// `content`.
pub proof fn lemma_small_stream_round_trip(
    data: Seq<u8>,
    ps: int,
    max: u32,
    d: Seq<u8>,
    n: u32,
    content: Seq<u8>,
)
    requires
        0x100 <= ps <= 0x80_0000,
        small_lookup(d, ps, max, n) matches Ok(pgs_sz) && pgs_sz.1 == content.len(),
        ({
            let pgs = small_lookup(d, ps, max, n)->Ok_0.0;
            &&& forall|k: int| 0 <= k < pgs.len() ==> #[trigger] (pgs[k] * ps) + ps <= data.len()
            &&& forall|k: int|
                0 <= k < pgs.len() ==> #[trigger] page_holds_chunk(data, ps, pgs[k], content, k)
        }),
    ensures
        small_stream_result(data, ps, max, Ok(d), n, None) == Ok::<Seq<u8>, MsfError>(content),
{
    let pgs_sz = small_lookup(d, ps, max, n)->Ok_0;
    let pgs = pgs_sz.0;
    let count = le16_at(d, 0) as u32;
    let skip = small_pages_before(d, ps, n as int);
    lemma_read_pages16_len(
        d,
        4 + 8 * (count as int) + 2 * skip,
        pages_for(pgs_sz.1 as int, ps) as nat,
        max,
    );
    assert(pgs.len() == pages_for(content.len() as int, ps));
    assert(pgs.take(pages_for(content.len() as int, ps)) =~= pgs);
    lemma_gather_round_trip(data, ps, pgs, content);
}

/// Reads `count` 16-bit page numbers from `d` at `*pos`, validating and
/// widening each, and returns them as a page list truncated to `cap` bytes.
pub fn read_page_list16(header: &Header, count: usize, cap: u64, d: &Vec<u8>, pos: &mut usize) -> (r:
    Result<PageList, MsfError>)
    requires
        header.wf(),
        *old(pos) <= d@.len(),
        count <= 0x100_0000,
    ensures
        match r {
            Ok(pl) => {
                &&& read_pages16(
                    d@,
                    *old(pos) as int,
                    count as nat,
                    header.maximum_valid_page_number,
                ) matches Ok(pgs)
                &&& pgs.len() == count
                &&& pl.wf()
                &&& pl.page_size == header.page_size
                &&& pl.length as int == {
                    let full = count as int * header.page_size as int;
                    if (cap as int) < full {
                        cap as int
                    } else {
                        full
                    }
                }
                &&& pl.pages@ == pgs.take(pages_for(pl.length as int, header.page_size as int))
                &&& *final(pos) == *old(pos) + 2 * count
            },
            Err(e) => read_pages16(
                d@,
                *old(pos) as int,
                count as nat,
                header.maximum_valid_page_number,
            ) == Err::<Seq<u32>, MsfError>(e),
        },
{
    let ghost dd = d@;
    let ghost start = *pos as int;
    let ghost max = header.maximum_valid_page_number;
    let mut pl = PageList::new(header.page_size);
    let mut i: usize = 0;
    proof {
        assert(pl.pages@ + read_pages16(dd, start, count as nat, max)->Ok_0 =~= read_pages16(
            dd,
            start,
            count as nat,
            max,
        )->Ok_0);
    }
    while i < count
        invariant
            header.wf(),
            dd == d@,
            start == *old(pos) as int,
            max == header.maximum_valid_page_number,
            i <= count,
            count <= 0x100_0000,
            pl.wf(),
            pl.is_full(),
            pl.page_size == header.page_size,
            pl.pages@.len() == i,
            *pos as int == start + 2 * (i as int),
            *pos <= dd.len(),
            read_pages16(dd, start, count as nat, max) == (match read_pages16(
                dd,
                start + 2 * (i as int),
                (count - i) as nat,
                max,
            ) {
                Ok(rest) => Ok::<Seq<u32>, MsfError>(pl.pages@ + rest),
                Err(e) => Err::<Seq<u32>, MsfError>(e),
            }),
        decreases count - i,
    {
        let n: u16 = match parse_u16(d, pos) {
            Ok(v) => v,
            Err(e) => {
                return Err(e);
            },
        };
        let p: u32 = match header.validate_page_number(n as u32) {
            Ok(p) => p,
            Err(e) => {
                return Err(e);
            },
        };
        proof {
            let tail = read_pages16(dd, start + 2 * (i as int + 1), (count - i - 1) as nat, max);
            assert(read_pages16(dd, start + 2 * (i as int), (count - i) as nat, max) == (match tail {
                Ok(rest) => Ok::<Seq<u32>, MsfError>(seq![p] + rest),
                Err(e) => Err::<Seq<u32>, MsfError>(e),
            }));
            if tail is Ok {
                assert(pl.pages@ + (seq![p] + tail->Ok_0) =~= pl.pages@.push(p) + tail->Ok_0);
            }
        }
        pl.push(p);
        i = i + 1;
    }
    proof {
        assert(read_pages16(dd, start + 2 * (i as int), 0, max) == Ok::<Seq<u32>, MsfError>(
            Seq::empty(),
        ));
        assert(pl.pages@ + Seq::<u32>::empty() =~= pl.pages@);
        lemma_pages_for_basics(cap as int, header.page_size as int);
    }
    pl.truncate(cap);
    Ok(pl)
}

/// Looks up stream `stream_number` in the Small directory bytes `d`.
pub fn small_lookup_in_table(header: &Header, d: &Vec<u8>, stream_number: u32) -> (r: Result<
    PageList,
    MsfError,
>)
    requires
        header.wf(),
        d@.len() <= 0xFFFF_FFFF,
    ensures
        match r {
            Ok(pl) => {
                &&& small_lookup(
                    d@,
                    header.page_size as int,
                    header.maximum_valid_page_number,
                    stream_number,
                ) matches Ok(pgs_sz)
                &&& pl.wf()
                &&& pl.page_size == header.page_size
                &&& pl.length == pgs_sz.1
                &&& pgs_sz.0.len() == pages_for(pgs_sz.1 as int, header.page_size as int)
                &&& pl.pages@ == pgs_sz.0.take(
                    pages_for(pgs_sz.1 as int, header.page_size as int),
                )
            },
            Err(e) => small_lookup(
                d@,
                header.page_size as int,
                header.maximum_valid_page_number,
                stream_number,
            ) == Err::<(Seq<u32>, u32), MsfError>(e),
        },
{
    let ghost dd = d@;
    let ghost ps = header.page_size as int;
    let ghost max = header.maximum_valid_page_number;
    let mut pos: usize = 0;
    let count16: u16 = match parse_u16(d, &mut pos) {
        Ok(v) => v,
        Err(e) => {
            return Err(e);
        },
    };
    let reserved16: u16 = match parse_u16(d, &mut pos) {
        Ok(v) => v,
        Err(e) => {
            return Err(e);
        },
    };
    let _ = reserved16;
    let stream_count: u32 = count16 as u32;
    if stream_number >= stream_count {
        return Err(MsfError::StreamNotFound(stream_number));
    }
    let mut pages_to_skip: u64 = 0;
    let mut j: u32 = 0;
    while j < stream_number
        invariant
            header.wf(),
            dd == d@,
            ps == header.page_size as int,
            max == header.maximum_valid_page_number,
            dd.len() <= 0xFFFF_FFFF,
            j <= stream_number,
            stream_number < stream_count,
            stream_count == le16_at(dd, 0) as u32,
            dd.len() >= 4,
            pos as int == 4 + 8 * (j as int),
            pos <= dd.len(),
            pages_to_skip as int == small_pages_before(dd, ps, j as int),
            pages_to_skip as int <= 0x100_0000 * (j as int),
        decreases stream_number - j,
    {
        let bytes: u32 = match parse_u32(d, &mut pos) {
            Ok(v) => v,
            Err(e) => {
                return Err(e);
            },
        };
        let reserved: u32 = match parse_u32(d, &mut pos) {
            Ok(v) => v,
            Err(e) => {
                return Err(e);
            },
        };
        let _ = reserved;
        proof {
            assert(le32_at(dd, 4 + 8 * (j as int)) == bytes);
            assert(small_pages_before(dd, ps, j as int + 1) == small_pages_before(dd, ps, j as int)
                + (if bytes == 0xFFFF_FFFFu32 {
                0int
            } else {
                pages_for(bytes as int, ps)
            }));
        }
        if bytes != 0xFFFF_FFFF {
            let p: usize = header.pages_needed_to_store(bytes as usize);
            pages_to_skip = pages_to_skip + p as u64;
        }
        j = j + 1;
    }
    let bytes_in_stream: u32 = match parse_u32(d, &mut pos) {
        Ok(v) => v,
        Err(e) => {
            return Err(e);
        },
    };
    let own_reserved: u32 = match parse_u32(d, &mut pos) {
        Ok(v) => v,
        Err(e) => {
            return Err(e);
        },
    };
    let _ = own_reserved;
    if bytes_in_stream == 0xFFFF_FFFF {
        return Err(MsfError::StreamNotFound(stream_number));
    }
    let pages_in_stream: usize = header.pages_needed_to_store(bytes_in_stream as usize);
    let rem_sizes: u64 = ((stream_count - stream_number - 1) as u64) * 8;
    match skip_bytes(d, &mut pos, rem_sizes) {
        Ok(_) => {},
        Err(e) => {
            return Err(e);
        },
    }
    match skip_bytes(d, &mut pos, pages_to_skip * 2) {
        Ok(_) => {},
        Err(e) => {
            return Err(e);
        },
    }
    let pl = match read_page_list16(header, pages_in_stream, bytes_in_stream as u64, d, &mut pos) {
        Ok(pl) => pl,
        Err(e) => {
            return Err(e);
        },
    };
    proof {
        lemma_pages_for_basics(bytes_in_stream as int, ps);
    }
    Ok(pl)
}

/// Whether construction from the header page `hv` succeeds, and what the
/// constructed reader's header and stream table then hold.
pub open spec fn small_new_post<S: Source>(hv: Seq<u8>, m: SmallMSF<S>) -> bool {
    let ps = small_page_size(hv) as int;
    let dir_count = pages_for(small_dir_size(hv) as int, ps);
    &&& hv.len() >= 60
    &&& has_small_magic(hv)
    &&& valid_page_size(ps)
    &&& m.header.page_size as int == ps
    &&& m.header.maximum_valid_page_number == small_pages_used(hv) as u32
    &&& read_pages16(hv, 60, dir_count as nat, small_pages_used(hv) as u32) matches Ok(pgs)
    &&& m.stream_table matches StreamTable::TableFound { location }
    &&& location.page_size as int == ps
    &&& location.length == small_dir_size(hv) as u64
    &&& location.pages@ == pgs
}

/// The error construction from the header page `hv` reports, when it fails.
pub open spec fn small_new_err(hv: Seq<u8>, e: MsfError) -> bool {
    let ps = small_page_size(hv) as int;
    let dir_count = pages_for(small_dir_size(hv) as int, ps);
    ||| (hv.len() < 60 && e == MsfError::ParseError)
    ||| (hv.len() >= 60 && !has_small_magic(hv) && e == MsfError::UnrecognizedFileFormat)
    ||| (hv.len() >= 60 && has_small_magic(hv) && !valid_page_size(ps) && e
        == MsfError::InvalidPageSize(small_page_size(hv)))
    ||| (hv.len() >= 60 && has_small_magic(hv) && valid_page_size(ps) && read_pages16(
        hv,
        60,
        dir_count as nat,
        small_pages_used(hv) as u32,
    ) == Err::<Seq<u32>, MsfError>(e))
}

/// Whether construction from the header page `hv` succeeds at all.
pub open spec fn small_new_ok(hv: Seq<u8>) -> bool {
    let ps = small_page_size(hv) as int;
    let dir_count = pages_for(small_dir_size(hv) as int, ps);
    &&& hv.len() >= 60
    &&& has_small_magic(hv)
    &&& valid_page_size(ps)
    &&& read_pages16(hv, 60, dir_count as nat, small_pages_used(hv) as u32) is Ok
}

/// A reader for the Small MSF (version 2.00) container format.
pub struct SmallMSF<S> {
    /// The validated geometry.
    pub header: Header,
    /// The transport the container is read through.
    pub source: S,
    /// The stream table; Small MSFs start at the `TableFound` stage.
    pub stream_table: StreamTable,
}

impl<S: Source> SmallMSF<S> {
    /// The directory bytes this reader's state determines.  Small readers
    /// never hold a `HeaderOnly` table.
    pub open spec fn dir_result(self) -> Result<Seq<u8>, MsfError> {
        match self.stream_table {
            StreamTable::Available { table } => Ok(table@),
            StreamTable::TableFound { location } => Ok(
                gather(
                    self.source.data(),
                    location.page_size as int,
                    location.pages@,
                    location.length as int,
                ),
            ),
            StreamTable::HeaderOnly { .. } => Err(MsfError::ParseError),
        }
    }

    /// Whether resolving the directory succeeds over a reliable transport:
    /// the byte ranges of the directory's pages lie within the file.
    /// Trivial once the table is `Available`; Small readers never hold a
    /// `HeaderOnly` table.
    pub open spec fn dir_fetchable(self) -> bool {
        match self.stream_table {
            StreamTable::Available { .. } => true,
            StreamTable::TableFound { location } => ranges_in_bounds(
                self.source.data(),
                slices_rec(location.page_size as int, location.pages@, location.length as int),
            ),
            StreamTable::HeaderOnly { .. } => false,
        }
    }

    /// Parses the Small MSF header page and builds a reader whose stream
    /// table starts at the `TableFound` stage: the directory's page list is
    /// stored inline in the header, with no second indirection.
    pub fn new(source: S, header_view: Vec<u8>) -> (r: Result<SmallMSF<S>, MsfError>)
        ensures
            match r {
                Ok(m) => small_new_post(header_view@, m) && m.wf() && m.source == source,
                Err(e) => small_new_err(header_view@, e),
            },
    {
        if header_view.len() < 60 {
            return Err(MsfError::ParseError);
        }
        if !check_small_magic(&header_view) {
            return Err(MsfError::UnrecognizedFileFormat);
        }
        let mut pos: usize = 44;
        let page_size_raw: u32 = match parse_u32(&header_view, &mut pos) {
            Ok(v) => v,
            Err(e) => {
                return Err(e);
            },
        };
        let start_page: u16 = match parse_u16(&header_view, &mut pos) {
            Ok(v) => v,
            Err(e) => {
                return Err(e);
            },
        };
        let _ = start_page;
        let pages_used: u16 = match parse_u16(&header_view, &mut pos) {
            Ok(v) => v,
            Err(e) => {
                return Err(e);
            },
        };
        let directory_size: u32 = match parse_u32(&header_view, &mut pos) {
            Ok(v) => v,
            Err(e) => {
                return Err(e);
            },
        };
        let reserved: u32 = match parse_u32(&header_view, &mut pos) {
            Ok(v) => v,
            Err(e) => {
                return Err(e);
            },
        };
        let _ = reserved;
        if !is_valid_page_size(page_size_raw) {
            return Err(MsfError::InvalidPageSize(page_size_raw));
        }
        let header = Header {
            page_size: page_size_raw as usize,
            maximum_valid_page_number: pages_used as u32,
        };
        let dir_count: usize = header.pages_needed_to_store(directory_size as usize);
        let pl = match read_page_list16(
            &header,
            dir_count,
            directory_size as u64,
            &header_view,
            &mut pos,
        ) {
            Ok(pl) => pl,
            Err(e) => {
                return Err(e);
            },
        };
        proof {
            lemma_pages_for_basics(directory_size as int, header.page_size as int);
            let pgs = read_pages16(
                header_view@,
                60,
                dir_count as nat,
                pages_used as u32,
            )->Ok_0;
            assert(pgs.take(pages_for(directory_size as int, header.page_size as int)) =~= pgs);
        }
        Ok(
            SmallMSF {
                header,
                source,
                stream_table: StreamTable::TableFound { location: pl },
            },
        )
    }

    /// Ensures the stream table is `Available`: reads and caches its bytes.
    fn make_stream_table_available(&mut self) -> (r: Result<(), MsfError>)
        requires
            old(self).wf(),
        ensures
            final(self).wf(),
            final(self).header == old(self).header,
            final(self).source.data() == old(self).source.data(),
            final(self).dir_result() == old(self).dir_result(),
            r matches Ok(_) ==> final(self).stream_table is Available,
            r matches Err(e) ==> e matches MsfError::Transport(_),
            r matches Err(_) ==> final(self).stream_table == old(self).stream_table,
            old(self).source.reliable() ==> final(self).source.reliable(),
            old(self).source.reliable() && old(self).dir_fetchable() ==> (r matches Ok(_)),
            old(self).stream_table is Available ==> *final(self) == *old(self) && r matches Ok(_),
    {
        match &self.stream_table {
            StreamTable::TableFound { location } => {
                let v = match fetch(&mut self.source, location) {
                    Ok(v) => v,
                    Err(e) => {
                        return Err(e);
                    },
                };
                self.stream_table = StreamTable::Available { table: v };
                Ok(())
            },
            _ => Ok(()),
        }
    }

    /// Resolves the directory if needed, then looks up the requested
    /// stream's page list in it.
    fn look_up_stream(&mut self, stream_number: u32) -> (r: Result<PageList, MsfError>)
        requires
            old(self).wf(),
        ensures
            final(self).wf(),
            final(self).header == old(self).header,
            final(self).source.data() == old(self).source.data(),
            final(self).dir_result() == old(self).dir_result(),
            old(self).stream_table is Available ==> *final(self) == *old(self),
            old(self).stream_table is Available ==> (old(self).dir_result() matches Ok(d2)
                && (match small_lookup(
                d2,
                old(self).header.page_size as int,
                old(self).header.maximum_valid_page_number,
                stream_number,
            ) {
                Ok(_) => r is Ok,
                Err(e2) => r == Err::<PageList, MsfError>(e2),
            })),
            old(self).source.reliable() ==> final(self).source.reliable(),
            old(self).source.reliable() && old(self).dir_fetchable() ==> (old(self).dir_result() matches Ok(d3) && (match small_lookup(
                d3,
                old(self).header.page_size as int,
                old(self).header.maximum_valid_page_number,
                stream_number,
            ) {
                Ok(_) => r is Ok,
                Err(e3) => r == Err::<PageList, MsfError>(e3),
            })),
            match r {
                Ok(pl) => {
                    &&& final(self).stream_table is Available
                    &&& old(self).dir_result() matches Ok(d)
                    &&& small_lookup(
                        d,
                        old(self).header.page_size as int,
                        old(self).header.maximum_valid_page_number,
                        stream_number,
                    ) matches Ok(pgs_sz)
                    &&& pl.wf()
                    &&& pl.page_size == old(self).header.page_size
                    &&& pl.length == pgs_sz.1
                    &&& pgs_sz.0.len() == pages_for(
                        pgs_sz.1 as int,
                        old(self).header.page_size as int,
                    )
                    &&& pl.pages@ == pgs_sz.0.take(
                        pages_for(pgs_sz.1 as int, old(self).header.page_size as int),
                    )
                },
                Err(e) => {
                    ||| e matches MsfError::Transport(_)
                    ||| old(self).dir_result() == Err::<Seq<u8>, MsfError>(e)
                    ||| (old(self).dir_result() matches Ok(d) && small_lookup(
                        d,
                        old(self).header.page_size as int,
                        old(self).header.maximum_valid_page_number,
                        stream_number,
                    ) == Err::<(Seq<u32>, u32), MsfError>(e))
                },
            },
    {
        match self.make_stream_table_available() {
            Ok(_) => {},
            Err(e) => {
                return Err(e);
            },
        }
        let header = self.header;
        match &self.stream_table {
            StreamTable::Available { table } => small_lookup_in_table(
                &header,
                table,
                stream_number,
            ),
            // unreachable: the table is Available after the call above
            _ => Err(MsfError::ParseError),
        }
    }
}

impl<S: Source> Msf<S> for SmallMSF<S> {
    open spec fn wf(self) -> bool {
        &&& self.header.wf()
        &&& match self.stream_table {
            StreamTable::HeaderOnly { .. } => false,
            StreamTable::TableFound { location } => {
                &&& location.wf()
                &&& location.page_size == self.header.page_size
                &&& location.length <= 0xFFFF_FFFF
            },
            StreamTable::Available { table } => table@.len() <= 0xFFFF_FFFF,
        }
    }

    open spec fn data(self) -> Seq<u8> {
        self.source.data()
    }

    open spec fn requests(self) -> Seq<SourceSlice> {
        self.source.requests()
    }

    open spec fn dir_loaded(self) -> bool {
        self.stream_table is Available
    }

    open spec fn reliable(self) -> bool {
        self.source.reliable()
    }

    open spec fn dir_loadable(self) -> bool {
        self.dir_fetchable()
    }

    open spec fn stream_result(self, stream_number: u32, limit: Option<usize>) -> Result<
        Seq<u8>,
        MsfError,
    > {
        small_stream_result(
            self.source.data(),
            self.header.page_size as int,
            self.header.maximum_valid_page_number,
            self.dir_result(),
            stream_number,
            limit,
        )
    }

    open spec fn stream_slices(self, stream_number: u32, limit: Option<usize>) -> Seq<SourceSlice> {
        match self.dir_result() {
            Err(_) => Seq::empty(),
            Ok(d) => match small_lookup(
                d,
                self.header.page_size as int,
                self.header.maximum_valid_page_number,
                stream_number,
            ) {
                Err(_) => Seq::empty(),
                Ok(pgs_sz) => {
                    let ps = self.header.page_size as int;
                    let len = limited_len(pgs_sz.1, limit);
                    slices_rec(ps, pgs_sz.0.take(pages_for(len, ps)), len)
                },
            },
        }
    }

    fn get(&mut self, stream_number: u32, limit: Option<usize>) -> (r: Result<Stream, MsfError>) {
        let mut page_list = match self.look_up_stream(stream_number) {
            Ok(pl) => pl,
            Err(e) => {
                return Err(e);
            },
        };
        let ghost ps = self.header.page_size as int;
        let ghost max = self.header.maximum_valid_page_number;
        let ghost d = old(self).dir_result()->Ok_0;
        let ghost pgs_sz = small_lookup(d, ps, max, stream_number)->Ok_0;
        let ghost lim_len = limited_len(pgs_sz.1, limit);
        match limit {
            Some(l) => {
                page_list.truncate(l as u64);
            },
            None => {},
        }
        proof {
            lemma_pages_for_monotone(lim_len, pgs_sz.1 as int, ps);
            assert(page_list.length as int == lim_len);
            assert(page_list.pages@ =~= pgs_sz.0.take(pages_for(lim_len, ps)));
        }
        let v = match fetch(&mut self.source, &page_list) {
            Ok(v) => v,
            Err(e) => {
                return Err(e);
            },
        };
        Ok(Stream { bytes: v })
    }
}

} // verus!
