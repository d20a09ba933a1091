use inventario::cierres::{
    check_not_closed, closure_bucket_plan, closure_date, closure_sales_count, payment_bucket,
    PaymentBucket,
};

#[test]
fn closure_dates_must_be_read_by_chrono() {
    assert_eq!(closure_date(Some("2024-05-31".to_string())).unwrap(), "2024-05-31");
    assert_eq!(
        closure_date(Some("2024-02-30".to_string())).unwrap_err(),
        "Fecha inválida (use YYYY-MM-DD)."
    );
    assert_eq!(
        closure_date(Some("31/05/2024".to_string())).unwrap_err(),
        "Fecha inválida (use YYYY-MM-DD)."
    );
    for bad in ["2024-5-31", "2024-05-1", "+2024-05-31", "02024-05-31", "2024/05/31", "abcd-ef-gh"] {
        assert_eq!(closure_date(Some(bad.to_string())).unwrap_err(), "Fecha inválida (use YYYY-MM-DD).");
    }
    assert_eq!(closure_date(Some("0999-12-31".to_string())).unwrap(), "0999-12-31");
    for bad in ["2024-13-01", "2024-00-10", "2024-04-31", "2023-02-29", "1900-02-29", "2024-06-00"] {
        assert!(closure_date(Some(bad.to_string())).is_err());
    }
    for good in ["2024-02-29", "2000-02-29", "0000-02-29", "2024-12-31"] {
        assert_eq!(closure_date(Some(good.to_string())).unwrap(), good);
    }
    let today = closure_date(None).unwrap();
    assert_eq!(today.len(), 10);
}

#[test]
fn a_date_is_closed_once() {
    assert!(check_not_closed(None).is_ok());
    assert_eq!(check_not_closed(Some(3)).unwrap_err(), "Ya existe un cierre para esa fecha");
}

#[test]
fn sales_count_keeps_low_bits() {
    assert_eq!(closure_sales_count(12), 12);
    assert_eq!(closure_sales_count(1i64 << 32), 0);
    assert_eq!(closure_sales_count(-1), -1);
}

#[test]
fn payment_methods_fall_into_columns() {
    assert!(matches!(payment_bucket("efectivo"), PaymentBucket::Efectivo));
    assert!(matches!(payment_bucket("tarjeta"), PaymentBucket::Tarjeta));
    assert!(matches!(payment_bucket("transferencia"), PaymentBucket::Transferencia));
    assert!(matches!(payment_bucket("mercado_pago"), PaymentBucket::MercadoPago));
    assert!(matches!(payment_bucket("Efectivo"), PaymentBucket::Otros));
    assert!(matches!(payment_bucket("cheque"), PaymentBucket::Otros));
}

#[test]
fn the_last_total_of_a_method_fills_its_column() {
    let formas: Vec<String> =
        ["efectivo", "cheque", "tarjeta", "efectivo", "vale", "mercado_pago"].iter().map(|s| s.to_string()).collect();
    let plan = closure_bucket_plan(&formas);
    assert_eq!(plan.efectivo, Some(3));
    assert_eq!(plan.tarjeta, Some(2));
    assert_eq!(plan.transferencia, None);
    assert_eq!(plan.mercado_pago, Some(5));
    assert_eq!(plan.otros, vec![1, 4]);
}
