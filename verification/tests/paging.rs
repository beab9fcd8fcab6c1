use video_gallery::pager::{max_pages, paginate, requested_page};

fn pages_joined(items: &[u32], size: u16) -> Vec<u32> {
    let mut out = Vec::new();
    let pages = max_pages(items.len(), size);
    let mut page: usize = 1;
    while page <= pages {
        let slice = paginate(items.len(), size, page as u16);
        out.extend_from_slice(&items[slice.items_start..slice.items_end]);
        page += 1;
    }
    out
}

#[test]
fn max_pages_exact_multiple_has_no_extra_page() {
    assert_eq!(max_pages(6, 2), 3);
    assert_eq!(max_pages(6, 3), 2);
    assert_eq!(max_pages(6, 6), 1);
    assert_eq!(max_pages(1, 1), 1);
}

#[test]
fn max_pages_rounds_up() {
    assert_eq!(max_pages(7, 2), 4);
    assert_eq!(max_pages(1, 10), 1);
    assert_eq!(max_pages(11, 10), 2);
    assert_eq!(max_pages(3, 2), 2);
}

#[test]
fn max_pages_of_empty_listing_is_zero() {
    assert_eq!(max_pages(0, 1), 0);
    assert_eq!(max_pages(0, 25), 0);
    assert_eq!(max_pages(0, u16::MAX), 0);
}

#[test]
fn max_pages_bounds_hold() {
    for total in 1usize..200 {
        for size in 1u16..20 {
            let m = max_pages(total, size);
            assert!((m - 1) * (size as usize) < total);
            assert!(total <= m * (size as usize));
        }
    }
}

#[test]
fn max_pages_of_largest_listing() {
    assert_eq!(max_pages(usize::MAX, 1), usize::MAX);
    assert_eq!(max_pages(usize::MAX, 2), usize::MAX / 2 + 1);
}

#[test]
fn paginate_first_page() {
    let p = paginate(5, 2, 1);
    assert_eq!(p.items_start, 0);
    assert_eq!(p.items_end, 2);
    assert_eq!(p.max_pages, 3);
    assert_eq!(p.effective_page, 1);
}

#[test]
fn paginate_last_page_is_clamped() {
    let p = paginate(5, 2, 3);
    assert_eq!(p.items_start, 4);
    assert_eq!(p.items_end, 5);
    assert_eq!(p.max_pages, 3);
    assert_eq!(p.effective_page, 3);
}

#[test]
fn paginate_page_zero_is_page_one() {
    let zero = paginate(5, 2, 0);
    let one = paginate(5, 2, 1);
    assert_eq!(zero.items_start, one.items_start);
    assert_eq!(zero.items_end, one.items_end);
    assert_eq!(zero.max_pages, one.max_pages);
    assert_eq!(zero.effective_page, 1);
    assert_eq!(one.effective_page, 1);
}

#[test]
fn paginate_beyond_last_page_is_empty() {
    let p = paginate(5, 2, 4);
    assert_eq!(p.items_start, 5);
    assert_eq!(p.items_end, 5);
    assert_eq!(p.max_pages, 3);
    assert_eq!(p.effective_page, 4);
    let far = paginate(5, 2, u16::MAX);
    assert_eq!(far.items_start, far.items_end);
    assert_eq!(far.effective_page, u16::MAX);
}

#[test]
fn paginate_empty_listing() {
    let p = paginate(0, 3, 1);
    assert_eq!(p.items_start, 0);
    assert_eq!(p.items_end, 0);
    assert_eq!(p.max_pages, 0);
}

#[test]
fn paginate_largest_page_and_size_do_not_overflow() {
    let p = paginate(usize::MAX, u16::MAX, u16::MAX);
    assert_eq!(p.items_start, 65534 * 65535);
    assert_eq!(p.items_end, 65535 * 65535);
    let q = paginate(100_000, 300, 300);
    assert_eq!(q.items_start, 89_700);
    assert_eq!(q.items_end, 90_000);
    assert_eq!(q.max_pages, 334);
}

#[test]
fn pages_in_order_give_back_the_listing() {
    for total in 0u32..40 {
        let items: Vec<u32> = (0..total).collect();
        for size in 1u16..9 {
            assert_eq!(pages_joined(&items, size), items);
        }
    }
}

#[test]
fn requested_page_defaults_to_first() {
    assert_eq!(requested_page(None), 1);
    assert_eq!(requested_page(Some(7)), 7);
    assert_eq!(requested_page(Some(0)), 0);
    assert_eq!(paginate(5, 2, requested_page(Some(0))).effective_page, 1);
}
