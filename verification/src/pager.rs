//! Page arithmetic: how many pages a listing has and which items a page shows.

use vstd::prelude::*;

verus! {

/// The slice of a listing that one page shows, with the page count.
#[derive(Clone, Copy, Debug)]
pub struct PageSpec {
    /// Index of the first item on the page.
    pub items_start: usize,
    /// Index one past the last item on the page.
    pub items_end: usize,
    /// Number of pages that the whole listing fills.
    pub max_pages: usize,
    /// The page number used for slicing, never zero.
    pub effective_page: u16,
}

/// Number of pages needed for `total` items at `size` items per page.
pub open spec fn max_pages_of(total: nat, size: nat) -> nat
    recommends
        size > 0,
{
    if total % size == 0 {
        total / size
    } else {
        total / size + 1
    }
}

/// Page zero is read as page one.
pub open spec fn effective_page_of(requested: nat) -> nat {
    if requested == 0 {
        1
    } else {
        requested
    }
}

/// `n` clamped to `limit`.
pub open spec fn clamp_to(n: nat, limit: nat) -> nat {
    if n < limit {
        n
    } else {
        limit
    }
}

/// Index of the first item of `page` (counted from one), clamped to `total`.
pub open spec fn slice_start(total: nat, size: nat, page: nat) -> nat
    recommends
        page >= 1,
{
    clamp_to(((page - 1) * size) as nat, total)
}

/// Index one past the last item of `page` (counted from one), clamped to `total`.
pub open spec fn slice_end(total: nat, size: nat, page: nat) -> nat {
    clamp_to(page * size, total)
}

/// The items of `items` that `page` shows.
pub open spec fn page_items<A>(items: Seq<A>, size: nat, page: nat) -> Seq<A>
    recommends
        page >= 1,
{
    items.subrange(
        slice_start(items.len(), size, page) as int,
        slice_end(items.len(), size, page) as int,
    )
}

/// The items of pages `1..=pages`, one page after the other.
pub open spec fn pages_joined<A>(items: Seq<A>, size: nat, pages: nat) -> Seq<A>
    decreases pages,
{
    if pages == 0 {
        Seq::empty()
    } else {
        pages_joined(items, size, (pages - 1) as nat) + page_items(items, size, pages)
    }
}

/// The page count is the least number of pages that holds every item:
/// zero for an empty listing, else `(m - 1) * size < total <= m * size`.
pub proof fn lemma_max_pages_bounds(total: nat, size: nat)
    requires
        size > 0,
    ensures
        total == 0 ==> max_pages_of(total, size) == 0,
        total > 0 ==> (max_pages_of(total, size) - 1) * size < total,
        total <= max_pages_of(total, size) * size,
{
    let q = total / size;
    let r = total % size;
    assert(total == q * size + r && 0 <= r < size) by (nonlinear_arith)
        requires
            size > 0,
            q == total / size,
            r == total % size,
    ;
    assert((q + 1) * size == q * size + size) by (nonlinear_arith);
    assert((q - 1) * size == q * size - size) by (nonlinear_arith);
    if total == 0 {
        assert(q == 0) by (nonlinear_arith)
            requires
                q * size + r == 0,
                size > 0,
                q >= 0,
                r >= 0,
        ;
    }
}

/// The first `pages` pages joined are the first `pages * size` items.
pub proof fn lemma_pages_joined_prefix<A>(items: Seq<A>, size: nat, pages: nat)
    requires
        size > 0,
    ensures
        pages_joined(items, size, pages) == items.subrange(
            0,
            slice_end(items.len(), size, pages) as int,
        ),
    decreases pages,
{
    if pages == 0 {
        assert(0 * size == 0) by (nonlinear_arith);
        assert(pages_joined(items, size, pages) =~= items.subrange(0, 0));
    } else {
        let before = (pages - 1) as nat;
        lemma_pages_joined_prefix(items, size, before);
        assert(before * size <= pages * size) by (nonlinear_arith)
            requires
                before <= pages,
        ;
        assert(pages_joined(items, size, pages) =~= items.subrange(
            0,
            slice_end(items.len(), size, pages) as int,
        ));
    }
}

/// Pages `1..=max_pages` joined in order give back the listing: every item
/// once, none left out, in the listing's order.
pub proof fn lemma_pages_cover<A>(items: Seq<A>, size: nat)
    requires
        size > 0,
    ensures
        pages_joined(items, size, max_pages_of(items.len(), size)) == items,
{
    let m = max_pages_of(items.len(), size);
    lemma_max_pages_bounds(items.len(), size);
    lemma_pages_joined_prefix(items, size, m);
    assert(items.subrange(0, items.len() as int) =~= items);
}

/// The slice of a page past the last one starts and ends at the listing's end.
pub proof fn lemma_slice_beyond(total: nat, size: nat, page: nat)
    requires
        size > 0,
        page > max_pages_of(total, size),
    ensures
        slice_start(total, size, page) == total,
        slice_end(total, size, page) == total,
{
    let m = max_pages_of(total, size);
    lemma_max_pages_bounds(total, size);
    assert(m * size <= (page - 1) * size) by (nonlinear_arith)
        requires
            m <= page - 1,
            size > 0,
    ;
    assert((page - 1) * size <= page * size) by (nonlinear_arith)
        requires
            size > 0,
            page >= 1,
    ;
}

/// A page past the last one shows nothing.
pub proof fn lemma_page_beyond_is_empty<A>(items: Seq<A>, size: nat, page: nat)
    requires
        size > 0,
        page > max_pages_of(items.len(), size),
    ensures
        page_items(items, size, page) == Seq::<A>::empty(),
{
    lemma_slice_beyond(items.len(), size, page);
    assert(page_items(items, size, page) =~= Seq::<A>::empty());
}

/// The page that a request asks for: the one it names, else the first.
pub fn requested_page(named: Option<u16>) -> (page: u16)
    ensures
        page == match named {
            Some(n) => n,
            None => 1u16,
        },
{
    match named {
        Some(n) => n,
        None => 1,
    }
}

/// Number of pages that `total` items fill at `page_size` items per page.
pub fn max_pages(total: usize, page_size: u16) -> (m: usize)
    requires
        page_size > 0,
    ensures
        m == max_pages_of(total as nat, page_size as nat),
        total == 0 ==> m == 0,
        total > 0 ==> (m - 1) * page_size < total <= m * page_size,
{
    let size: usize = page_size as usize;
    proof {
        lemma_max_pages_bounds(total as nat, size as nat);
        if total % size != 0 {
            assert(total / size < usize::MAX) by (nonlinear_arith)
                requires
                    total % size != 0,
                    size > 0,
                    total <= usize::MAX,
            ;
        }
    }
    if total % size == 0 {
        total / size
    } else {
        total / size + 1
    }
}

/// Computes the slice of a listing of `total` items that page `requested`
/// shows at `page_size` items per page. Page zero is read as page one; a page
/// past the end gets an empty slice.
pub fn paginate(total: usize, page_size: u16, requested: u16) -> (r: PageSpec)
    requires
        page_size > 0,
    ensures
        r.effective_page == effective_page_of(requested as nat),
        r.max_pages == max_pages_of(total as nat, page_size as nat),
        r.items_start == slice_start(total as nat, page_size as nat, r.effective_page as nat),
        r.items_end == slice_end(total as nat, page_size as nat, r.effective_page as nat),
        r.items_start <= r.items_end <= total,
        r.effective_page > r.max_pages ==> r.items_start == total && r.items_end == total,
{
    let page: u16 = if requested == 0 {
        1
    } else {
        requested
    };
    proof {
        if page > max_pages_of(total as nat, page_size as nat) {
            lemma_slice_beyond(total as nat, page_size as nat, page as nat);
        }
    }
    let size: u64 = page_size as u64;
    let before: u64 = (page - 1) as u64;
    let through: u64 = page as u64;
    proof {
        assert(before * size <= through * size <= 0xffff * 0xffff) by (nonlinear_arith)
            requires
                before + 1 == through,
                through <= 0xffff,
                0 < size <= 0xffff,
        ;
    }
    let first: u64 = before * size;
    let last: u64 = through * size;
    let items_start: usize = if first < total as u64 {
        first as usize
    } else {
        total
    };
    let items_end: usize = if last < total as u64 {
        last as usize
    } else {
        total
    };
    PageSpec { items_start, items_end, max_pages: max_pages(total, page_size), effective_page: page }
}

} // verus!
