//! Pagination: page and size clamp to a minimum of one, the offset is
//! `(page - 1) * size`, and the page count is the ceiling of total over
//! size. The laws proved here: the page count is exactly that ceiling, and
//! the pages partition the listing — their lengths sum to the total.

use vstd::prelude::*;

verus! {

pub open spec fn spec_clamp_min1(x: int) -> int {
    if x < 1 {
        1
    } else {
        x
    }
}

pub open spec fn spec_offset(page: int, size: int) -> int {
    (page - 1) * size
}

/// The rows of page `page`: `size` rows starting at the offset, clipped to
/// the sequence.
pub open spec fn spec_page_slice<A>(s: Seq<A>, page: int, size: int) -> Seq<A> {
    let off = spec_offset(page, size);
    let lo = if off > s.len() {
        s.len() as int
    } else if off < 0 {
        0
    } else {
        off
    };
    let hi0 = off + size;
    let hi = if hi0 > s.len() {
        s.len() as int
    } else if hi0 < lo {
        lo
    } else {
        hi0
    };
    s.subrange(lo, hi)
}

/// How many pages a listing of `total` rows has at `size` rows per page.
pub open spec fn spec_total_pages(total: int, size: int) -> int {
    total / size + if total % size == 0 {
        0int
    } else {
        1int
    }
}

/// The page count is the ceiling of total over size: all rows fit in that
/// many pages, one page fewer loses rows, and an empty listing has no
/// pages.
pub proof fn lemma_total_pages_is_ceiling(total: int, size: int)
    requires
        total >= 0,
        size >= 1,
    ensures
        spec_total_pages(total, size) * size >= total,
        total > 0 ==> (spec_total_pages(total, size) - 1) * size < total,
        total == 0 ==> spec_total_pages(total, size) == 0,
        spec_total_pages(total, size) >= 0,
{
    vstd::arithmetic::div_mod::lemma_fundamental_div_mod(total, size);
    let q = total / size;
    let m = total % size;
    vstd::arithmetic::div_mod::lemma_mod_bound(total, size);
    vstd::arithmetic::div_mod::lemma_div_pos_is_pos(total, size);
    if m == 0 {
        assert(q * size == size * q) by (nonlinear_arith) {}
        assert(spec_total_pages(total, size) * size == q * size);
        assert(q * size == total);
        if total > 0 {
            assert((q - 1) * size == total - size) by (nonlinear_arith)
                requires
                    q * size == total,
            {}
        }
    } else {
        assert(q * size == size * q) by (nonlinear_arith) {}
        assert(spec_total_pages(total, size) * size == (q + 1) * size);
        assert((q + 1) * size == q * size + size) by (nonlinear_arith) {}
        assert(q * size + size == total - m + size);
        assert(total - m + size > total);
        assert(q * size == total - m);
    }
}

/// The length of a page: what lies between its clipped start and end.
pub proof fn lemma_page_slice_len<A>(s: Seq<A>, page: int, size: int)
    requires
        page >= 1,
        size >= 1,
    ensures
        ({
            let off = spec_offset(page, size);
            let lo = if off > s.len() {
                s.len() as int
            } else {
                off
            };
            let hi = if off + size > s.len() {
                s.len() as int
            } else {
                off + size
            };
            spec_page_slice(s, page, size).len() == hi - lo
        }),
{
    assert(spec_offset(page, size) >= 0) by (nonlinear_arith)
        requires
            page >= 1,
            size >= 1,
    {}
}

/// The total number of rows on the first `pages` pages.
pub open spec fn spec_pages_total<A>(s: Seq<A>, size: int, pages: int) -> int
    decreases pages,
{
    if pages <= 0 {
        0
    } else {
        spec_pages_total(s, size, pages - 1) + spec_page_slice(s, pages, size).len()
    }
}

/// The first `n` pages hold exactly the first `n * size` rows, clipped to
/// the listing.
pub proof fn lemma_pages_partial_sum<A>(s: Seq<A>, size: int, n: int)
    requires
        size >= 1,
        n >= 0,
    ensures
        spec_pages_total(s, size, n) == if n * size > s.len() {
            s.len() as int
        } else {
            n * size
        },
    decreases n,
{
    if n == 0 {
        assert(n * size == 0) by (nonlinear_arith)
            requires
                n == 0,
        {}
    }
    if n > 0 {
        lemma_pages_partial_sum(s, size, n - 1);
        lemma_page_slice_len(s, n, size);
        assert(spec_offset(n, size) == (n - 1) * size);
        assert(n * size == (n - 1) * size + size) by (nonlinear_arith) {}
        assert((n - 1) * size >= 0) by (nonlinear_arith)
            requires
                n >= 1,
                size >= 1,
        {}
        let prev = (n - 1) * size;
        let cur = n * size;
        let lenn = s.len() as int;
        assert(spec_pages_total(s, size, n - 1) == if prev > lenn {
            lenn
        } else {
            prev
        });
        let lo = if prev > lenn {
            lenn
        } else {
            prev
        };
        let hi = if prev + size > lenn {
            lenn
        } else {
            prev + size
        };
        assert(spec_page_slice(s, n, size).len() == hi - lo);
        assert(spec_pages_total(s, size, n) == (if prev > lenn {
            lenn
        } else {
            prev
        }) + hi - lo);
    }
}

/// Pagination consistency: across all `spec_total_pages` pages, the page
/// lengths sum to the listing's total length — every row appears in
/// exactly one page.
pub proof fn lemma_pages_partition<A>(s: Seq<A>, size: int)
    requires
        size >= 1,
    ensures
        spec_pages_total(s, size, spec_total_pages(s.len() as int, size)) == s.len(),
{
    let tp = spec_total_pages(s.len() as int, size);
    lemma_total_pages_is_ceiling(s.len() as int, size);
    lemma_pages_partial_sum(s, size, tp);
}

/// The clipped bounds of one page of a listing of `len` rows.
pub fn page_bounds(len: usize, page: i64, size: i64) -> (r: (usize, usize))
    ensures
        ({
            let p = spec_clamp_min1(page as int);
            let sz = spec_clamp_min1(size as int);
            let off = spec_offset(p, sz);
            &&& r.0 <= r.1 <= len
            &&& r.0 as int == (if off > len {
                len as int
            } else {
                off
            })
            &&& r.1 as int == (if off + sz > len {
                len as int
            } else {
                off + sz
            })
        }),
{
    let p: i64 = if page < 1 {
        1
    } else {
        page
    };
    let sz: i64 = if size < 1 {
        1
    } else {
        size
    };
    let p1: u128 = ((p - 1) as u64) as u128;
    let szu: u128 = (sz as u64) as u128;
    proof {
        assert(p1 * szu + szu <= 0xffffffffffffffffffffffffffffffffu128) by (nonlinear_arith)
            requires
                0 <= p1 < 0x10000000000000000u128,
                0 <= szu < 0x10000000000000000u128,
        {}
        assert(p1 * szu == spec_offset(p as int, sz as int));
    }
    let off: u128 = p1 * szu;
    let lo: usize = if off > (len as u128) {
        len
    } else {
        off as usize
    };
    let sum: u128 = off + szu;
    let hi: usize = if sum > (len as u128) {
        len
    } else {
        sum as usize
    };
    (lo, hi)
}

} // verus!
