use inventario::historial_ventas::{history_item_name, sale_item_name, today_sales_pattern};
use inventario::venta::{
    check_sale, combo_stock_decrements, issue_message, line_kind, sale_issues_of, ComboPartStock,
    LineKind, LineStock, NewSaleItemInput, SaleIssue, SaleLineStock,
};

fn product(id: i32, nombre: &str, quantity: i32, cantidad: i32) -> SaleLineStock {
    SaleLineStock { cantidad, stock: LineStock::Product { id, nombre: nombre.to_string(), quantity } }
}

fn part(product_id: i32, cantidad: i32, nombre: &str, stock: i32) -> ComboPartStock {
    ComboPartStock { product_id, cantidad, nombre: nombre.to_string(), stock }
}

#[test]
fn line_kind_prefers_the_product() {
    let both = NewSaleItemInput { product_id: Some(3), combo_id: Some(9), cantidad: 1 };
    assert!(matches!(line_kind(&both), LineKind::Product(3)));
    let combo = NewSaleItemInput { product_id: None, combo_id: Some(9), cantidad: 1 };
    assert!(matches!(line_kind(&combo), LineKind::Combo(9)));
    let none = NewSaleItemInput { product_id: None, combo_id: None, cantidad: 1 };
    assert!(matches!(line_kind(&none), LineKind::Invalid));
}

#[test]
fn a_sale_within_stock_passes() {
    let lines = vec![
        product(1, "Coca", 5, 5),
        SaleLineStock {
            cantidad: 2,
            stock: LineStock::Combo {
                id: 7,
                nombre: "Promo".to_string(),
                enabled: true,
                parts: vec![part(2, 3, "Pan", 6), part(3, 1, "Queso", 2)],
            },
        },
    ];
    assert!(check_sale(&lines).is_ok());
    assert!(sale_issues_of(&lines).is_empty());
}

#[test]
fn insufficient_product_stock_is_reported() {
    let lines = vec![product(4, "Agua", 2, 3)];
    assert_eq!(
        check_sale(&lines).unwrap_err(),
        "Stock insuficiente para 'Agua' (id 4): requerido 3, disponible 2"
    );
}

#[test]
fn disabled_combo_and_short_parts_are_all_reported_in_order() {
    let lines = vec![
        SaleLineStock { cantidad: 1, stock: LineStock::Invalid },
        SaleLineStock {
            cantidad: 2,
            stock: LineStock::Combo {
                id: 7,
                nombre: "Promo".to_string(),
                enabled: false,
                parts: vec![part(2, 3, "Pan", 5), part(3, 1, "Queso", 2), part(5, 2, "Jamón", -1)],
            },
        },
        product(1, "Coca", -2, 1),
    ];
    let expected = [
        "Ítem inválido (sin product_id ni combo_id)",
        "El combo 'Promo' (id 7) está inactivo",
        "'Pan' del combo 'Promo' sin stock suficiente: requerido 6, disponible 5",
        "'Jamón' del combo 'Promo' sin stock suficiente: requerido 4, disponible -1",
        "Stock insuficiente para 'Coca' (id 1): requerido 1, disponible -2",
    ]
    .join("\n");
    assert_eq!(check_sale(&lines).unwrap_err(), expected);
    let issues = sale_issues_of(&lines);
    assert_eq!(issues.len(), 5);
    assert!(matches!(issues[0], SaleIssue::InvalidItem));
}

#[test]
fn issue_messages() {
    let m = issue_message(&SaleIssue::ComboDisabled { nombre: "X".to_string(), id: -3 });
    assert_eq!(m, "El combo 'X' (id -3) está inactivo");
    let m = issue_message(&SaleIssue::InsufficientStock {
        nombre: "Y".to_string(),
        id: 1,
        required: 10,
        available: 0,
    });
    assert_eq!(m, "Stock insuficiente para 'Y' (id 1): requerido 10, disponible 0");
    let m = issue_message(&SaleIssue::TotalShort {
        nombre: "Z".to_string(),
        id: 2,
        required_total: i128::MIN,
        available: 0,
    });
    assert_eq!(
        m,
        "Stock insuficiente para 'Z' (id 2): requerido en total -170141183460469231731687303715884105728, disponible 0"
    );
}

#[test]
fn a_checked_sale_stays_within_stock_for_distinct_products() {
    // law: requirements of a checked sale are each within the stock read
    let lines = vec![product(1, "A", 4, 4), product(2, "B", 1, 1)];
    assert!(check_sale(&lines).is_ok());
}

#[test]
fn the_same_product_on_two_lines_is_checked_in_total() {
    // each line alone is within stock, but both together take 6 of 5
    let lines = vec![product(1, "A", 5, 3), product(1, "A", 5, 3)];
    assert_eq!(
        check_sale(&lines).unwrap_err(),
        "Stock insuficiente para 'A' (id 1): requerido en total 6, disponible 5"
    );
    let lines = vec![product(1, "A", 6, 3), product(1, "A", 6, 3)];
    assert!(check_sale(&lines).is_ok());
}

#[test]
fn a_product_sold_directly_and_inside_a_combo_is_checked_in_total() {
    let lines = vec![
        product(2, "Pan", 7, 2),
        SaleLineStock {
            cantidad: 2,
            stock: LineStock::Combo {
                id: 7,
                nombre: "Promo".to_string(),
                enabled: true,
                parts: vec![part(2, 3, "Pan", 7), part(3, 1, "Queso", 9)],
            },
        },
        product(3, "Queso", 9, 1),
    ];
    // Pan: 2 + 6 = 8 of 7; Queso: 2 + 1 = 3 of 9
    assert_eq!(
        check_sale(&lines).unwrap_err(),
        "Stock insuficiente para 'Pan' (id 2): requerido en total 8, disponible 7"
    );
    let issues = sale_issues_of(&lines);
    assert_eq!(issues.len(), 1);
}

#[test]
fn a_line_short_by_itself_and_in_total_is_reported_both_ways() {
    let lines = vec![product(1, "A", 2, 3), product(1, "A", 2, 1)];
    let expected = [
        "Stock insuficiente para 'A' (id 1): requerido 3, disponible 2",
        "Stock insuficiente para 'A' (id 1): requerido en total 4, disponible 2",
    ]
    .join("\n");
    assert_eq!(check_sale(&lines).unwrap_err(), expected);
}

#[test]
fn combo_decrements_multiply_by_the_quantity_sold() {
    let d = combo_stock_decrements(&vec![(2, 3), (3, 1)], 4);
    assert_eq!(d, vec![(2, 12), (3, 4)]);
    assert!(combo_stock_decrements(&vec![], 4).is_empty());
}

#[test]
fn shown_names() {
    assert_eq!(history_item_name(Some("P".into()), Some("C".into())), "P");
    assert_eq!(history_item_name(None, Some("C".into())), "C");
    assert_eq!(history_item_name(None, None), "-");
    assert_eq!(sale_item_name(None, None), "Ítem");
    assert_eq!(sale_item_name(Some("P".into()), None), "P");
}

#[test]
fn todays_sales_pattern() {
    let p = today_sales_pattern();
    assert_eq!(p.len(), 11);
    assert!(p.ends_with('%'));
}
