//! Combos made of products: when a combo with items may be created or
//! updated, and the item rows written and read for it.
use vstd::prelude::*;
use crate::text::{is_blank, is_blank_text};

verus! {

/// A product of a combo and how many of it the combo holds, as entered.
pub struct ComboItemInput {
    pub product_id: i32,
    pub cantidad: i32,
}

/// An item row to store for a combo.
pub struct NewComboItem {
    pub combo_id: i32,
    pub product_id: i32,
    pub cantidad: i32,
}

/// An item of a combo as shown, with the product's name.
pub struct ComboItemView {
    pub product_id: i32,
    pub cantidad: i32,
    pub product_name: String,
}

pub open spec fn quantities_positive(items: Seq<ComboItemInput>) -> bool {
    forall|k: int| 0 <= k < items.len() ==> (#[trigger] items[k]).cantidad > 0
}

/// The checks made before a new combo is looked up in the store: a name
/// that is not blank, at least one item, every quantity positive.
pub open spec fn new_combo_ok(nombre: Seq<char>, items: Seq<ComboItemInput>) -> bool {
    &&& !is_blank_text(nombre)
    &&& items.len() > 0
    &&& quantities_positive(items)
}

/// Whether every quantity is positive.
pub fn all_quantities_positive(items: &Vec<ComboItemInput>) -> (b: bool)
    ensures
        b == quantities_positive(items@),
        b <==> (forall|k: int| 0 <= k < items@.len() ==> (#[trigger] items@[k]).cantidad > 0),
{
    let mut k: usize = 0;
    while k < items.len()
        invariant
            k <= items.len(),
            forall|j: int| 0 <= j < k ==> (#[trigger] items@[j]).cantidad > 0,
        decreases items.len() - k,
    {
        if items[k].cantidad <= 0 {
            return false;
        }
        k = k + 1;
    }
    true
}

/// Whether a new combo passes the checks made before its products are
/// looked up.
pub fn validate_new_combo(nombre: &str, items: &Vec<ComboItemInput>) -> (b: bool)
    ensures
        b == new_combo_ok(nombre@, items@),
        b <==> (!is_blank_text(nombre@) && items@.len() > 0 && forall|k: int|
            0 <= k < items@.len() ==> (#[trigger] items@[k]).cantidad > 0),
{
    if is_blank(nombre) {
        return false;
    }
    if items.len() == 0 {
        return false;
    }
    all_quantities_positive(items)
}

/// The quantity check passes exactly when every item's quantity is
/// positive: an item of quantity zero or less, wherever it stands, makes the
/// combo refused, whatever its name.
pub proof fn lemma_quantity_check_reads_every_item(
    nombre: Seq<char>,
    items: Seq<ComboItemInput>,
    k: int,
)
    requires
        0 <= k < items.len(),
    ensures
        quantities_positive(items) <==> (forall|j: int|
            0 <= j < items.len() ==> (#[trigger] items[j]).cantidad > 0),
        items[k].cantidad <= 0 ==> !quantities_positive(items) && !new_combo_ok(nombre, items),
{
}

/// The products that the items name, in order (repeats kept).
pub fn product_ids(items: &Vec<ComboItemInput>) -> (ids: Vec<i32>)
    ensures
        ids@.len() == items@.len(),
        forall|k: int| 0 <= k < items@.len() ==> #[trigger] ids@[k] == items@[k].product_id,
{
    let mut ids: Vec<i32> = Vec::new();
    let mut k: usize = 0;
    while k < items.len()
        invariant
            k <= items.len(),
            ids@.len() == k,
            forall|j: int| 0 <= j < k ==> #[trigger] ids@[j] == items@[j].product_id,
        decreases items.len() - k,
    {
        ids.push(items[k].product_id);
        k = k + 1;
    }
    ids
}

/// Whether the store holds as many of the named products as there are ids.
/// The count is of distinct products, so an id named twice fails the check.
pub fn all_products_found(found: i64, ids: &Vec<i32>) -> (b: bool)
    ensures
        b == (found == ids@.len()),
{
    let n = ids.len();
    if found < 0 {
        return false;
    }
    found as u64 == n as u64
}

/// The item rows to store for combo `combo_id`, one per item, in order.
pub fn items_for_combo(combo_id: i32, items: &Vec<ComboItemInput>) -> (rows: Vec<NewComboItem>)
    ensures
        rows@.len() == items@.len(),
        forall|k: int|
            0 <= k < items@.len() ==> #[trigger] rows@[k] == (NewComboItem {
                combo_id: combo_id,
                product_id: items@[k].product_id,
                cantidad: items@[k].cantidad,
            }),
{
    let mut rows: Vec<NewComboItem> = Vec::new();
    let mut k: usize = 0;
    while k < items.len()
        invariant
            k <= items.len(),
            rows@.len() == k,
            forall|j: int|
                0 <= j < k ==> #[trigger] rows@[j] == (NewComboItem {
                    combo_id: combo_id,
                    product_id: items@[j].product_id,
                    cantidad: items@[j].cantidad,
                }),
        decreases items.len() - k,
    {
        rows.push(
            NewComboItem {
                combo_id,
                product_id: items[k].product_id,
                cantidad: items[k].cantidad,
            },
        );
        k = k + 1;
    }
    rows
}

/// The items of a combo as shown, from the rows (product, quantity, product
/// name) read for it, in order.
pub fn combo_item_views(rows: Vec<(i32, i32, String)>) -> (views: Vec<ComboItemView>)
    ensures
        views@.len() == rows@.len(),
        forall|k: int|
            0 <= k < rows@.len() ==> #[trigger] views@[k] == (ComboItemView {
                product_id: rows@[k].0,
                cantidad: rows@[k].1,
                product_name: rows@[k].2,
            }),
{
    let mut rest = rows;
    let ghost all = rest@;
    assert(all.len() == rest.len());
    let mut views: Vec<ComboItemView> = Vec::new();
    let mut n: usize = 0;
    while rest.len() > 0
        invariant
            n <= all.len(),
            all.len() <= usize::MAX,
            rest@ == all.skip(n as int),
            views@.len() == n,
            forall|j: int|
                0 <= j < n ==> #[trigger] views@[j] == (ComboItemView {
                    product_id: all[j].0,
                    cantidad: all[j].1,
                    product_name: all[j].2,
                }),
        decreases rest.len(),
    {
        let (pid, cant, pname) = rest.remove(0);
        assert(all.skip(n as int)[0] == all[n as int]);
        views.push(ComboItemView { product_id: pid, cantidad: cant, product_name: pname });
        proof {
            assert(rest@ =~= all.skip(n + 1));
        }
        n = n + 1;
    }
    views
}

} // verus!
