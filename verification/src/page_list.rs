//! An ordered, page-size-aware list of page numbers that knows its logical
//! byte length, and the byte-range theory used to gather pages into a view.

use vstd::prelude::*;

use vstd::arithmetic::div_mod::lemma_basic_div;
use vstd::arithmetic::div_mod::lemma_div_plus_one;
use vstd::arithmetic::div_mod::lemma_fundamental_div_mod_converse_div;
use vstd::arithmetic::div_mod::lemma_small_div_converse;
use vstd::arithmetic::mul::lemma_mul_inequality;
use vstd::arithmetic::mul::lemma_mul_nonnegative;
use vstd::arithmetic::mul::lemma_mul_is_distributive_add_other_way;
use vstd::arithmetic::mul::lemma_mul_upper_bound;

use crate::header::lemma_pages_for_basics;
use crate::header::lemma_pages_for_full;
use crate::header::lemma_pages_for_monotone;
use crate::header::pages_for;

verus! {

/// One contiguous byte range of the underlying file: `size` bytes starting
/// at byte `offset`.
#[derive(Clone, Copy, Debug, PartialEq, Eq, Structural)]
pub struct SourceSlice {
    /// Byte offset of the range within the file.
    pub offset: u64,
    /// Number of bytes in the range.
    pub size: usize,
}

/// The source slices of a page list: one range per page, each starting at
/// `page * page_size`; the final range is truncated so that the total byte
/// count equals `length`.
pub open spec fn slices_rec(ps: int, pages: Seq<u32>, length: int) -> Seq<SourceSlice>
    decreases pages.len(),
{
    if pages.len() == 0 {
        Seq::empty()
    } else {
        let sz = if length < ps {
            length
        } else {
            ps
        };
        let first = SourceSlice { offset: (pages[0] * ps) as u64, size: sz as usize };
        seq![first] + slices_rec(ps, pages.drop_first(), length - sz)
    }
}

/// Total number of bytes the slices ask for.
pub open spec fn sum_sizes(ss: Seq<SourceSlice>) -> int
    decreases ss.len(),
{
    if ss.len() == 0 {
        0
    } else {
        ss[0].size + sum_sizes(ss.drop_first())
    }
}

/// Whether one slice lies within `data`.
pub open spec fn range_in_bounds(data: Seq<u8>, s: SourceSlice) -> bool {
    s.offset + s.size <= data.len()
}

/// Whether every slice lies within `data`.
pub open spec fn ranges_in_bounds(data: Seq<u8>, ss: Seq<SourceSlice>) -> bool {
    forall|i: int| 0 <= i < ss.len() ==> range_in_bounds(data, #[trigger] ss[i])
}

/// The concatenation of the byte ranges of `data` that `ss` names, in order.
pub open spec fn concat_ranges(data: Seq<u8>, ss: Seq<SourceSlice>) -> Seq<u8>
    decreases ss.len(),
{
    if ss.len() == 0 {
        Seq::empty()
    } else {
        data.subrange(ss[0].offset as int, ss[0].offset + ss[0].size) + concat_ranges(
            data,
            ss.drop_first(),
        )
    }
}

/// The bytes of a stream stored on `pages`: its pages' contents gathered in
/// order, truncated to `length` bytes.
pub open spec fn gather(data: Seq<u8>, ps: int, pages: Seq<u32>, length: int) -> Seq<u8> {
    concat_ranges(data, slices_rec(ps, pages, length))
}

/// In-bounds ranges concatenate to exactly as many bytes as they ask for.
pub proof fn lemma_concat_ranges_len(data: Seq<u8>, ss: Seq<SourceSlice>)
    requires
        ranges_in_bounds(data, ss),
    ensures
        concat_ranges(data, ss).len() == sum_sizes(ss),
    decreases ss.len(),
{
    if ss.len() != 0 {
        assert(range_in_bounds(data, ss[0]));
        assert forall|i: int| 0 <= i < ss.drop_first().len() implies range_in_bounds(
            data,
            #[trigger] ss.drop_first()[i],
        ) by {
            assert(ss.drop_first()[i] == ss[i + 1]);
        }
        lemma_concat_ranges_len(data, ss.drop_first());
    }
}

/// An ordered list of page numbers, together with the page size and the
/// logical byte length of the data stored on those pages.
#[derive(Debug)]
pub struct PageList {
    /// Size of one page in bytes.
    pub page_size: usize,
    /// The page numbers, in order.
    pub pages: Vec<u32>,
    /// Logical length in bytes of the data the pages hold.
    pub length: u64,
}

impl PageList {
    /// Well-formedness: the page count is exactly what the logical length
    /// requires, and both stay within the bounds the formats allow.
    pub open spec fn wf(self) -> bool {
        &&& 0x100 <= self.page_size <= 0x80_0000
        &&& self.pages@.len() <= 0x100_0000
        &&& self.pages@.len() == pages_for(self.length as int, self.page_size as int)
    }

    /// Whether every page is full: the logical length covers all pages.
    pub open spec fn is_full(self) -> bool {
        self.length == self.pages@.len() * self.page_size
    }

    /// An empty list with known geometry.
    pub fn new(page_size: usize) -> (r: PageList)
        requires
            0x100 <= page_size <= 0x80_0000,
        ensures
            r.wf(),
            r.is_full(),
            r.page_size == page_size,
            r.pages@ == Seq::<u32>::empty(),
            r.length == 0,
    {
        proof {
            lemma_basic_div(page_size as int - 1, page_size as int);
        }
        PageList { page_size, pages: Vec::new(), length: 0 }
    }

    /// Appends a page; the logical length grows by one full page.
    pub fn push(&mut self, page: u32)
        requires
            old(self).wf(),
            old(self).is_full(),
            old(self).pages@.len() < 0x100_0000,
        ensures
            final(self).wf(),
            final(self).is_full(),
            final(self).page_size == old(self).page_size,
            final(self).pages@ == old(self).pages@.push(page),
            final(self).length == old(self).length + old(self).page_size,
    {
        proof {
            let n = self.pages@.len() as int;
            let ps = self.page_size as int;
            lemma_mul_inequality(n, 0x100_0000 - 1, ps);
            lemma_mul_is_distributive_add_other_way(ps, n, 1);
            lemma_pages_for_full(n + 1, ps);
        }
        self.pages.push(page);
        self.length = self.length + self.page_size as u64;
    }

    /// Sets the logical length to `min(length, n)`, dropping the pages whose
    /// entire extent lies past the new length.
    pub fn truncate(&mut self, n: u64)
        requires
            old(self).wf(),
        ensures
            final(self).wf(),
            final(self).page_size == old(self).page_size,
            final(self).length == if n < old(self).length {
                n
            } else {
                old(self).length as u64
            },
            final(self).pages@ == old(self).pages@.take(
                pages_for(final(self).length as int, old(self).page_size as int),
            ),
    {
        let ghost ps = self.page_size as int;
        if n < self.length {
            let keep_w: u64 = if n == 0 {
                proof {
                    lemma_basic_div(ps - 1, ps);
                }
                0
            } else {
                proof {
                    lemma_div_plus_one(n as int - 1, ps);
                }
                (n - 1) / (self.page_size as u64) + 1
            };
            proof {
                assert(keep_w == pages_for(n as int, ps));
                lemma_pages_for_monotone(n as int, self.length as int, ps);
            }
            let keep = keep_w as usize;
            self.length = n;
            let ghost orig = self.pages@;
            proof {
                assert(self.pages@ =~= orig.take(self.pages@.len() as int));
            }
            while self.pages.len() > keep
                invariant
                    self.page_size == old(self).page_size,
                    self.length == n,
                    orig == old(self).pages@,
                    keep <= self.pages@.len() <= orig.len(),
                    self.pages@ == orig.take(self.pages@.len() as int),
                decreases self.pages@.len(),
            {
                self.pages.pop();
                proof {
                    assert(self.pages@ =~= orig.take(self.pages@.len() as int));
                }
            }
            proof {
                assert(self.pages@ =~= orig.take(keep as int));
            }
        } else {
            proof {
                assert(self.pages@ =~= self.pages@.take(
                    pages_for(self.length as int, ps),
                ));
            }
        }
    }

    /// The logical length in bytes.
    pub fn len(&self) -> (r: u64)
        ensures
            r == self.length,
    {
        self.length
    }

    /// Produces the byte ranges of the underlying file that hold this list's
    /// data: one per page, the final one truncated to the logical length.
    pub fn source_slices(&self) -> (r: Vec<SourceSlice>)
        requires
            self.wf(),
        ensures
            r@ == slices_rec(self.page_size as int, self.pages@, self.length as int),
    {
        let ghost ps = self.page_size as int;
        let ghost full = slices_rec(ps, self.pages@, self.length as int);
        let mut out: Vec<SourceSlice> = Vec::new();
        let mut remaining: u64 = self.length;
        let mut i: usize = 0;
        proof {
            assert(self.pages@.skip(0) =~= self.pages@);
            assert(out@ + slices_rec(ps, self.pages@.skip(0), remaining as int) =~= full);
        }
        while i < self.pages.len()
            invariant
                self.wf(),
                ps == self.page_size as int,
                i <= self.pages@.len(),
                remaining <= self.length,
                full == out@ + slices_rec(ps, self.pages@.skip(i as int), remaining as int),
            decreases self.pages@.len() - i,
        {
            let page = self.pages[i];
            let sz: u64 = if remaining < self.page_size as u64 {
                remaining
            } else {
                self.page_size as u64
            };
            proof {
                lemma_mul_upper_bound(page as int, 0xFFFF_FFFF, ps, 0x80_0000);
            }
            let off: u64 = (page as u64) * (self.page_size as u64);
            let s = SourceSlice { offset: off, size: sz as usize };
            proof {
                let tail = self.pages@.skip(i as int);
                assert(tail[0] == self.pages@[i as int]);
                assert(tail.drop_first() =~= self.pages@.skip(i as int + 1));
                let rest = slices_rec(ps, self.pages@.skip(i as int + 1), remaining - sz);
                assert(slices_rec(ps, tail, remaining as int) == seq![s] + rest);
                assert(out@ + (seq![s] + rest) =~= (out@ + seq![s]) + rest);
                assert(out@.push(s) =~= out@ + seq![s]);
            }
            out.push(s);
            remaining = remaining - sz;
            i = i + 1;
        }
        proof {
            assert(self.pages@.skip(i as int) =~= Seq::<u32>::empty());
            assert(full =~= out@);
        }
        out
    }
}

/// Law: for any well-formed page list, the source slices ask for exactly
/// `length` bytes in total, and `length` never exceeds `pages × page_size`.
pub proof fn lemma_page_list_slices(pl: PageList)
    requires
        pl.wf(),
    ensures
        sum_sizes(slices_rec(pl.page_size as int, pl.pages@, pl.length as int)) == pl.length,
        pl.length <= pl.pages@.len() * pl.page_size,
{
    lemma_slices_sum(pl.page_size as int, pl.pages@, pl.length as int);
    lemma_pages_for_basics(pl.length as int, pl.page_size as int);
}

/// The slices of a page count that exactly stores `length` bytes sum to
/// `length`.
pub proof fn lemma_slices_sum(ps: int, pages: Seq<u32>, length: int)
    requires
        0x100 <= ps <= 0x80_0000,
        length >= 0,
        pages.len() == pages_for(length, ps),
    ensures
        sum_sizes(slices_rec(ps, pages, length)) == length,
    decreases pages.len(),
{
    if pages.len() == 0 {
        lemma_small_div_converse(length + ps - 1, ps);
    } else {
        lemma_basic_div(ps - 1, ps);
        assert(length > 0) by {
            if length == 0 {
                assert(pages_for(0, ps) == 0);
            }
        }
        let sz = if length < ps {
            length
        } else {
            ps
        };
        if length < ps {
            lemma_fundamental_div_mod_converse_div(length + ps - 1, ps, 1, length - 1);
            assert(pages.len() == 1);
            assert(pages.drop_first().len() == 0);
            assert(pages_for(0, ps) == 0);
        } else {
            lemma_div_plus_one(length - 1, ps);
            assert(pages_for(length - ps, ps) == pages_for(length, ps) - 1);
        }
        lemma_slices_sum(ps, pages.drop_first(), length - sz);
        let first = SourceSlice { offset: (pages[0] * ps) as u64, size: sz as usize };
        let rest = slices_rec(ps, pages.drop_first(), length - sz);
        assert(slices_rec(ps, pages, length) == seq![first] + rest);
        assert((seq![first] + rest)[0] == first);
        assert((seq![first] + rest).drop_first() =~= rest);
        assert(first.size == sz);
    }
}

/// Whether page number `page` of `data` holds the `k`-th page-sized chunk
/// of `content`: its bytes from `k * ps` up to the content's end.
pub open spec fn page_holds_chunk(data: Seq<u8>, ps: int, page: u32, content: Seq<u8>, k: int) -> bool {
    forall|o: int|
        0 <= o < ps && k * ps + o < content.len() ==> data[#[trigger] (page * ps + o)] == content[k
            * ps + o]
}

/// Law: when each listed page holds the corresponding chunk of `content`
/// (page `k` holding its bytes from `k * ps` on), gathering the pages
/// yields exactly `content`.  This is the round-trip fact: a reader that
/// gathers the pages an encoder filled gets the encoded bytes back.
pub proof fn lemma_gather_round_trip(data: Seq<u8>, ps: int, pages: Seq<u32>, content: Seq<u8>)
    requires
        0x100 <= ps <= 0x80_0000,
        pages.len() == pages_for(content.len() as int, ps),
        forall|k: int| 0 <= k < pages.len() ==> #[trigger] (pages[k] * ps) + ps <= data.len(),
        forall|k: int|
            0 <= k < pages.len() ==> #[trigger] page_holds_chunk(data, ps, pages[k], content, k),
    ensures
        gather(data, ps, pages, content.len() as int) == content,
    decreases pages.len(),
{
    let len = content.len() as int;
    if pages.len() == 0 {
        lemma_small_div_converse(len + ps - 1, ps);
        assert(gather(data, ps, pages, len) =~= content);
    } else {
        lemma_basic_div(ps - 1, ps);
        assert(len > 0) by {
            if len == 0 {
                assert(pages_for(0, ps) == 0);
            }
        }
        let sz = if len < ps {
            len
        } else {
            ps
        };
        if len < ps {
            lemma_fundamental_div_mod_converse_div(len + ps - 1, ps, 1, len - 1);
            assert(pages.len() == 1);
            assert(pages_for(0, ps) == 0);
        } else {
            lemma_div_plus_one(len - 1, ps);
            assert(pages_for(len - ps, ps) == pages_for(len, ps) - 1);
        }
        let tail_pages = pages.drop_first();
        let tail_content = content.skip(sz);
        assert forall|k: int| 0 <= k < tail_pages.len() implies #[trigger] (tail_pages[k] * ps) + ps
            <= data.len() by {
            assert(tail_pages[k] == pages[k + 1]);
        }
        assert forall|k: int| 0 <= k < tail_pages.len() implies #[trigger] page_holds_chunk(
            data,
            ps,
            tail_pages[k],
            tail_content,
            k,
        ) by {
            assert(tail_pages[k] == pages[k + 1]);
            assert(page_holds_chunk(data, ps, pages[k + 1], content, k + 1));
            lemma_mul_is_distributive_add_other_way(ps, k, 1);
            assert((k + 1) * ps == k * ps + ps);
            assert forall|o: int| 0 <= o < ps && k * ps + o < tail_content.len() implies data[
                #[trigger] (tail_pages[k] * ps + o)] == tail_content[k * ps + o] by {
                assert(data[pages[k + 1] * ps + o] == content[(k + 1) * ps + o]);
                assert(tail_content[k * ps + o] == content[sz + k * ps + o]);
            }
        }
        lemma_gather_round_trip(data, ps, tail_pages, tail_content);
        let first = SourceSlice { offset: (pages[0] * ps) as u64, size: sz as usize };
        let rest_slices = slices_rec(ps, tail_pages, len - sz);
        assert(slices_rec(ps, pages, len) == seq![first] + rest_slices);
        assert((seq![first] + rest_slices)[0] == first);
        assert((seq![first] + rest_slices).drop_first() =~= rest_slices);
        assert(pages[0] * ps >= 0) by {
            lemma_mul_nonnegative(pages[0] as int, ps);
        }
        assert(pages[0] * ps <= 0xFFFF_FFFFint * 0x80_0000) by {
            lemma_mul_upper_bound(pages[0] as int, 0xFFFF_FFFF, ps, 0x80_0000);
        }
        assert(first.offset == pages[0] * ps);
        assert(page_holds_chunk(data, ps, pages[0], content, 0));
        assert(data.subrange(first.offset as int, first.offset + first.size) =~= content.take(sz))
            by {
            assert forall|o: int| 0 <= o < sz implies data[pages[0] * ps + o] == content[o] by {
                assert(0 * ps + o == o);
                assert(data[pages[0] * ps + o] == content[0 * ps + o]);
            }
        }
        assert(gather(data, ps, pages, len) == content.take(sz) + gather(
            data,
            ps,
            tail_pages,
            len - sz,
        ));
        assert(tail_content.len() == len - sz);
        assert(content.take(sz) + content.skip(sz) =~= content);
    }
}

} // verus!
