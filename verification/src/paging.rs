//! Paging of listings: which page is asked for, how many rows it holds,
//! where it starts, and how many pages a listing has.
use vstd::prelude::*;

verus! {

/// Most rows that one page of products may hold.
pub const MAX_PER_PAGE: i64 = 100;

/// Rows on one page of the sales history.
pub const SALES_PAGE_SIZE: i64 = 10;

/// One page of a listing.
pub struct Page<T> {
    pub data: Vec<T>,
    pub total: i64,
    pub total_pages: i64,
    pub current_page: i64,
    pub per_page: i64,
}

/// The rows that one page covers: its number, its size and the number of
/// rows before it.
pub struct PageWindow {
    pub current_page: i64,
    pub per_page: i64,
    pub offset: i64,
}

/// The page asked for, at least the first.
pub open spec fn effective_page(page: int) -> int {
    if page < 1 {
        1
    } else {
        page
    }
}

/// The page size asked for, kept between 1 and `MAX_PER_PAGE`.
pub open spec fn effective_per_page(per_page: int) -> int {
    if per_page < 1 {
        1
    } else if per_page > MAX_PER_PAGE {
        MAX_PER_PAGE as int
    } else {
        per_page
    }
}

/// Rows before page `page` when each page holds `size` rows.
pub open spec fn page_offset(page: int, size: int) -> int {
    (page - 1) * size
}

/// Pages needed for `total` rows, `size` to a page, and never fewer than one.
pub open spec fn page_count(total: int, size: int) -> int {
    let pages = (total + size - 1) / size;
    if pages < 1 {
        1
    } else {
        pages
    }
}

/// The page window for a product listing: page numbers below 1 ask for the
/// first page and the page size is kept between 1 and 100.
pub fn product_page_window(page: i64, per_page: i64) -> (w: PageWindow)
    requires
        page_offset(effective_page(page as int), effective_per_page(per_page as int)) <= i64::MAX,
    ensures
        w.current_page == effective_page(page as int),
        w.per_page == effective_per_page(per_page as int),
        w.offset == page_offset(w.current_page as int, w.per_page as int),
        w.offset >= 0,
{
    let p = if page < 1 {
        1
    } else {
        page
    };
    let size = if per_page < 1 {
        1
    } else if per_page > MAX_PER_PAGE {
        MAX_PER_PAGE
    } else {
        per_page
    };
    assert((p - 1) * size >= 0) by (nonlinear_arith)
        requires
            p >= 1,
            size >= 1,
    ;
    let off = (p - 1) * size;
    PageWindow { current_page: p, per_page: size, offset: off }
}

/// Rows before page `page` of the sales history. The page number is taken
/// as given, so a page below 1 gives a negative offset.
pub fn sales_page_offset(page: i64) -> (off: i64)
    requires
        i64::MIN <= page_offset(page as int, SALES_PAGE_SIZE as int) <= i64::MAX,
    ensures
        off == page_offset(page as int, SALES_PAGE_SIZE as int),
{
    (page - 1) * SALES_PAGE_SIZE
}

/// Pages needed for `total` rows, `size` to a page; at least one.
pub fn total_pages(total: i64, size: i64) -> (n: i64)
    requires
        size >= 1,
        total + size - 1 <= i64::MAX,
    ensures
        n == page_count(total as int, size as int),
        n >= 1,
{
    let pages = (total + (size - 1)) / size;
    proof {
        let num: int = total + size - 1;
        if num < 0 {
            assert(num / (size as int) < 1) by (nonlinear_arith)
                requires
                    num < 0,
                    size >= 1,
            ;
            assert(pages <= 0);
        } else {
            assert(pages == num / (size as int));
        }
    }
    if pages < 1 {
        1
    } else {
        pages
    }
}

/// A page of `data` out of a listing of `total` rows.
pub fn make_page<T>(data: Vec<T>, total: i64, w: PageWindow) -> (pg: Page<T>)
    requires
        w.per_page >= 1,
        total + w.per_page - 1 <= i64::MAX,
    ensures
        pg.data == data,
        pg.total == total,
        pg.total_pages == page_count(total as int, w.per_page as int),
        pg.current_page == w.current_page,
        pg.per_page == w.per_page,
{
    let n = total_pages(total, w.per_page);
    Page { data, total, total_pages: n, current_page: w.current_page, per_page: w.per_page }
}

/// Every row of a listing lies on one of its pages: row `i` (counting from
/// 0) lies on page `i / size + 1`, which is at most the page count.
pub proof fn lemma_every_row_on_a_page(total: int, size: int, i: int)
    requires
        size >= 1,
        0 <= i < total,
    ensures
        1 <= i / size + 1 <= page_count(total, size),
        page_offset(i / size + 1, size) <= i < page_offset(i / size + 1, size) + size,
{
    assert(i / size >= 0) by (nonlinear_arith)
        requires
            size >= 1,
            i >= 0,
    ;
    assert(i / size + 1 <= (total + size - 1) / size) by (nonlinear_arith)
        requires
            size >= 1,
            0 <= i < total,
    ;
    assert((i / size) * size <= i < (i / size) * size + size) by (nonlinear_arith)
        requires
            size >= 1,
            i >= 0,
    ;
}

/// No page past the first is empty: the last page starts before the last row.
pub proof fn lemma_last_page_not_empty(total: int, size: int)
    requires
        size >= 1,
        total > 0,
    ensures
        page_offset(page_count(total, size), size) < total,
        page_count(total, size) >= 1,
{
    assert(((total + size - 1) / size - 1) * size < total) by (nonlinear_arith)
        requires
            size >= 1,
            total > 0,
    ;
    assert((total + size - 1) / size >= 1) by (nonlinear_arith)
        requires
            size >= 1,
            total > 0,
    ;
}

} // verus!
