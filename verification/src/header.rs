//! The common, post-validation view of a container's geometry.

use vstd::prelude::*;

use vstd::arithmetic::div_mod::lemma_basic_div;
use vstd::arithmetic::div_mod::lemma_div_is_ordered;
use vstd::arithmetic::div_mod::lemma_div_nonincreasing;
use vstd::arithmetic::div_mod::lemma_div_plus_one;
use vstd::arithmetic::div_mod::lemma_div_pos_is_pos;
use vstd::arithmetic::div_mod::lemma_fundamental_div_mod;
use vstd::arithmetic::div_mod::lemma_fundamental_div_mod_converse_div;
use vstd::arithmetic::mul::lemma_mul_inequality;
use vstd::arithmetic::mul::lemma_mul_is_distributive_sub_other_way;

use crate::bytes::page_ok;
use crate::errors::MsfError;

verus! {

/// How many whole pages of `page_size` bytes it takes to store `bytes` bytes:
/// the ceiling of `bytes / page_size`.
pub open spec fn pages_for(bytes: int, page_size: int) -> int {
    (bytes + page_size - 1) / page_size
}

/// The page sizes a valid MSF header may declare: the powers of two
/// from 256 up to 8 MiB.
pub open spec fn valid_page_size(page_size: int) -> bool {
    ||| page_size == 0x100
    ||| page_size == 0x200
    ||| page_size == 0x400
    ||| page_size == 0x800
    ||| page_size == 0x1000
    ||| page_size == 0x2000
    ||| page_size == 0x4000
    ||| page_size == 0x8000
    ||| page_size == 0x10000
    ||| page_size == 0x20000
    ||| page_size == 0x40000
    ||| page_size == 0x80000
    ||| page_size == 0x100000
    ||| page_size == 0x200000
    ||| page_size == 0x400000
    ||| page_size == 0x800000
}

/// Whether `page_size` is a power of two in [256, 8388608].
pub fn is_valid_page_size(page_size: u32) -> (r: bool)
    ensures
        r == valid_page_size(page_size as int),
{
    page_size == 0x100 || page_size == 0x200 || page_size == 0x400 || page_size == 0x800
        || page_size == 0x1000 || page_size == 0x2000 || page_size == 0x4000 || page_size == 0x8000
        || page_size == 0x10000 || page_size == 0x20000 || page_size == 0x40000 || page_size
        == 0x80000 || page_size == 0x100000 || page_size == 0x200000 || page_size == 0x400000
        || page_size == 0x800000
}

/// Basic facts about the page count that stores a byte count.
pub proof fn lemma_pages_for_basics(bytes: int, page_size: int)
    requires
        page_size >= 1,
        bytes >= 0,
    ensures
        pages_for(bytes, page_size) >= 0,
        bytes <= pages_for(bytes, page_size) * page_size,
        bytes == 0 ==> pages_for(bytes, page_size) == 0,
        bytes > 0 ==> (pages_for(bytes, page_size) - 1) * page_size < bytes,
{
    let q = pages_for(bytes, page_size);
    lemma_div_pos_is_pos(bytes + page_size - 1, page_size);
    lemma_fundamental_div_mod(bytes + page_size - 1, page_size);
    let r = (bytes + page_size - 1) % page_size;
    assert(bytes + page_size - 1 == page_size * q + r);
    lemma_mul_is_distributive_sub_other_way(page_size, q, 1);
    if bytes == 0 {
        lemma_basic_div(page_size - 1, page_size);
    }
}

/// Storing more bytes never takes fewer pages.
pub proof fn lemma_pages_for_monotone(b1: int, b2: int, page_size: int)
    requires
        page_size >= 1,
        0 <= b1 <= b2,
    ensures
        pages_for(b1, page_size) <= pages_for(b2, page_size),
{
    lemma_div_is_ordered(b1 + page_size - 1, b2 + page_size - 1, page_size);
}

/// A whole number of pages stores exactly that many pages' worth of bytes.
pub proof fn lemma_pages_for_full(n: int, page_size: int)
    requires
        page_size >= 1,
        n >= 0,
    ensures
        pages_for(n * page_size, page_size) == n,
{
    lemma_fundamental_div_mod_converse_div(
        n * page_size + page_size - 1,
        page_size,
        n,
        page_size - 1,
    );
}

/// Common, immutable view of container geometry shared by both MSF variants.
#[derive(Debug, Copy, Clone)]
pub struct Header {
    /// Size of one page in bytes; a power of two in [256, 8388608].
    pub page_size: usize,
    /// The largest page number that may appear in any page list.
    pub maximum_valid_page_number: u32,
}

impl Header {
    /// A header is well formed when its page size passed validation.
    pub open spec fn wf(self) -> bool {
        valid_page_size(self.page_size as int)
    }

    /// Returns `ceil(bytes / page_size)`: the number of pages needed to
    /// store `bytes` bytes; 0 maps to 0.
    pub fn pages_needed_to_store(&self, bytes: usize) -> (r: usize)
        requires
            self.wf(),
        ensures
            r == pages_for(bytes as int, self.page_size as int),
            bytes <= 0xFFFF_FFFF ==> r <= 0x100_0000,
    {
        if bytes == 0 {
            proof {
                lemma_basic_div(self.page_size as int - 1, self.page_size as int);
            }
            0
        } else {
            let q = (bytes - 1) / self.page_size;
            proof {
                let b = bytes as int;
                let ps = self.page_size as int;
                lemma_div_plus_one(b - 1, ps);
                lemma_div_nonincreasing(b - 1, ps);
                lemma_div_pos_is_pos(b - 1, ps);
                if bytes <= 0xFFFF_FFFF {
                    lemma_fundamental_div_mod(b - 1, ps);
                    lemma_mul_inequality(0x100, ps, (b - 1) / ps);
                }
            }
            q + 1
        }
    }

    /// Accepts a page number read from disk, or reports it out of range:
    /// page 0 and pages past the maximum valid page number are rejected.
    pub fn validate_page_number(&self, page_number: u32) -> (r: Result<u32, MsfError>)
        ensures
            match r {
                Ok(p) => p == page_number && page_ok(page_number, self.maximum_valid_page_number),
                Err(e) => {
                    &&& e == MsfError::PageReferenceOutOfRange(page_number)
                    &&& !page_ok(page_number, self.maximum_valid_page_number)
                },
            },
    {
        if page_number == 0 || page_number > self.maximum_valid_page_number {
            Err(MsfError::PageReferenceOutOfRange(page_number))
        } else {
            Ok(page_number)
        }
    }
}

} // verus!
