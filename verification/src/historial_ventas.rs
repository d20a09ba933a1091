//! The sales history: the name shown for each sold item, and the pattern
//! that picks today's sales.
use vstd::prelude::*;
use crate::dates::{date_fields_ok, is_calendar_date, today_ymd, ymd_text};
use crate::text::{like_prefix, prefix_pattern};

verus! {

/// The name shown for a sold item: the product's name, else the combo's
/// name, else `fallback`.
pub open spec fn shown_name(product: Option<String>, combo: Option<String>, fallback: Seq<char>) -> Seq<char> {
    match product {
        Some(p) => p@,
        None => match combo {
            Some(c) => c@,
            None => fallback,
        },
    }
}

fn name_or(product: Option<String>, combo: Option<String>, fallback: &str) -> (r: String)
    ensures
        r@ == shown_name(product, combo, fallback@),
{
    match product {
        Some(p) => p,
        None => match combo {
            Some(c) => c,
            None => String::from_str(fallback),
        },
    }
}

/// The name shown for an item in the list of sales: `-` when neither a
/// product nor a combo name was found.
pub fn history_item_name(product: Option<String>, combo: Option<String>) -> (r: String)
    ensures
        r@ == shown_name(product, combo, "-"@),
{
    name_or(product, combo, "-")
}

/// The name shown for an item of one sale: `Ítem` when neither a product
/// nor a combo name was found.
pub fn sale_item_name(product: Option<String>, combo: Option<String>) -> (r: String)
    ensures
        r@ == shown_name(product, combo, "Ítem"@),
{
    name_or(product, combo, "Ítem")
}

/// The `LIKE` pattern of the dates of today's sales: today's date in the
/// machine's time zone followed by `%`.
pub fn today_sales_pattern() -> (p: String)
    ensures
        exists|y: int, m: nat, d: nat|
            date_fields_ok(y, m as int, d as int) && is_calendar_date(y, m as int, d as int) && p@
                == prefix_pattern(ymd_text(y, m, d)),
{
    let today = today_ymd();
    like_prefix(today.as_str())
}

} // verus!
