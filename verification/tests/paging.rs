use inventario::paging::{make_page, product_page_window, sales_page_offset, total_pages, PageWindow};

#[test]
fn product_window_clamps_page_and_size() {
    let w = product_page_window(0, 0);
    assert_eq!((w.current_page, w.per_page, w.offset), (1, 1, 0));
    let w = product_page_window(3, 500);
    assert_eq!((w.current_page, w.per_page, w.offset), (3, 100, 200));
    let w = product_page_window(-7, 20);
    assert_eq!((w.current_page, w.per_page, w.offset), (1, 20, 0));
    let w = product_page_window(4, 25);
    assert_eq!((w.current_page, w.per_page, w.offset), (4, 25, 75));
}

#[test]
fn page_counts() {
    assert_eq!(total_pages(0, 10), 1);
    assert_eq!(total_pages(1, 10), 1);
    assert_eq!(total_pages(10, 10), 1);
    assert_eq!(total_pages(11, 10), 2);
    assert_eq!(total_pages(95, 20), 5);
    assert_eq!(total_pages(-5, 10), 1);
    assert_eq!(total_pages(-50, 10), 1);
    assert_eq!(total_pages(i64::MAX - 10, 10), (i64::MAX - 1) / 10);
    assert_eq!(total_pages(i64::MAX - 9, 10), i64::MAX / 10);
}

#[test]
fn every_row_lies_on_a_page() {
    for total in 0..60i64 {
        for size in 1..12i64 {
            let pages = total_pages(total, size);
            for i in 0..total {
                assert!(i / size + 1 <= pages);
            }
            if total > 0 {
                assert!((pages - 1) * size < total);
            }
        }
    }
}

#[test]
fn sales_offsets() {
    assert_eq!(sales_page_offset(1), 0);
    assert_eq!(sales_page_offset(3), 20);
    assert_eq!(sales_page_offset(0), -10);
}

#[test]
fn pages_carry_their_window() {
    let p = make_page(vec!["a", "b"], 12, PageWindow { current_page: 2, per_page: 5, offset: 5 });
    assert_eq!(p.data, vec!["a", "b"]);
    assert_eq!((p.total, p.total_pages, p.current_page, p.per_page), (12, 3, 2, 5));
}
