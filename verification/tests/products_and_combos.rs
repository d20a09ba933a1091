use inventario::combos::{
    all_products_found, all_quantities_positive, combo_item_views, items_for_combo, product_ids,
    validate_new_combo, ComboItemInput,
};
use inventario::inventario::{check_product_deletable, merge_search_results, search_term};

fn item(product_id: i32, cantidad: i32) -> ComboItemInput {
    ComboItemInput { product_id, cantidad }
}

#[test]
fn search_terms_are_trimmed_and_blank_ones_dropped() {
    assert_eq!(search_term(None), None);
    assert_eq!(search_term(Some("   ".to_string())), None);
    assert_eq!(search_term(Some("".to_string())), None);
    assert_eq!(search_term(Some("  pan  ".to_string())), Some("pan".to_string()));
}

#[test]
fn search_results_are_sorted_and_deduplicated_by_id() {
    let by_name = vec![(5, "n5"), (2, "n2"), (9, "n9")];
    let by_sku = vec![(2, "s2"), (1, "s1"), (9, "s9"), (7, "s7")];
    let merged = merge_search_results(by_name, by_sku);
    assert_eq!(merged, vec![(1, "s1"), (2, "n2"), (5, "n5"), (7, "s7"), (9, "n9")]);
}

#[test]
fn merge_matches_sort_and_dedup() {
    let by_name = vec![(3, 'a'), (3, 'b'), (1, 'c')];
    let by_sku = vec![(1, 'd'), (4, 'e'), (3, 'f')];
    let mut expected: Vec<(i32, char)> = by_name.iter().chain(by_sku.iter()).cloned().collect();
    expected.sort_by_key(|p| p.0);
    expected.dedup_by_key(|p| p.0);
    assert_eq!(merge_search_results(by_name, by_sku), expected);
    let empty: Vec<(i32, char)> = vec![];
    assert!(merge_search_results(empty.clone(), empty).is_empty());
}

#[test]
fn products_in_combos_cannot_be_deleted() {
    assert!(check_product_deletable(0).is_ok());
    assert_eq!(
        check_product_deletable(2).unwrap_err(),
        "El producto no puede eliminarse porque forma parte de uno o más combos."
    );
}

#[test]
fn new_combo_checks() {
    assert!(validate_new_combo("Promo", &vec![item(1, 2)]));
    assert!(!validate_new_combo("  ", &vec![item(1, 2)]));
    assert!(!validate_new_combo("Promo", &vec![]));
    assert!(!validate_new_combo("Promo", &vec![item(1, 2), item(2, 0)]));
    assert!(all_quantities_positive(&vec![]));
    assert!(!all_quantities_positive(&vec![item(1, -1)]));
}

#[test]
fn every_named_product_must_be_found() {
    let items = vec![item(4, 1), item(4, 2), item(6, 1)];
    let ids = product_ids(&items);
    assert_eq!(ids, vec![4, 4, 6]);
    // the store counts two distinct products for three ids
    assert!(!all_products_found(2, &ids));
    assert!(all_products_found(3, &ids));
    assert!(!all_products_found(-1, &vec![]));
    assert!(all_products_found(0, &vec![]));
}

#[test]
fn combo_item_rows() {
    let rows = items_for_combo(11, &vec![item(4, 1), item(6, 3)]);
    assert_eq!(rows.len(), 2);
    assert_eq!((rows[1].combo_id, rows[1].product_id, rows[1].cantidad), (11, 6, 3));
    let views = combo_item_views(vec![(4, 1, "Pan".to_string()), (6, 3, "Queso".to_string())]);
    assert_eq!(views.len(), 2);
    assert_eq!((views[0].product_id, views[0].cantidad, views[0].product_name.as_str()), (4, 1, "Pan"));
    assert_eq!(views[1].product_name, "Queso");
}
