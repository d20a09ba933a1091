//! Daily closures: the date a closure is for, when it is refused, the
//! count it records, and how the payment totals of a closure fall into the
//! columns of the monthly list.
use vstd::prelude::*;
use crate::dates::{
    chrono_parses_date, date_fields_ok, date_or_today, has_ymd_shape, is_calendar_date,
    lemma_ymd_text_reads_back, names_calendar_date, ymd_shape, ymd_text,
};
use crate::text::text_eq;

verus! {

/// The column of the monthly list that a payment method falls into.
pub enum PaymentBucket {
    Efectivo,
    Tarjeta,
    Transferencia,
    MercadoPago,
    Otros,
}

/// Which payment totals of a closure fill which column: the four named
/// columns take the last total of their method (by position), the column
/// of other methods adds up all the others.
pub struct BucketPlan {
    pub efectivo: Option<usize>,
    pub tarjeta: Option<usize>,
    pub transferencia: Option<usize>,
    pub mercado_pago: Option<usize>,
    pub otros: Vec<usize>,
}

pub open spec fn bucket_of(forma_pago: Seq<char>) -> PaymentBucket {
    if forma_pago == "efectivo"@ {
        PaymentBucket::Efectivo
    } else if forma_pago == "tarjeta"@ {
        PaymentBucket::Tarjeta
    } else if forma_pago == "transferencia"@ {
        PaymentBucket::Transferencia
    } else if forma_pago == "mercado_pago"@ {
        PaymentBucket::MercadoPago
    } else {
        PaymentBucket::Otros
    }
}

/// Position of the last payment method in `formas` that falls into `b`.
pub open spec fn last_in_bucket(formas: Seq<String>, b: PaymentBucket) -> Option<int>
    decreases formas.len(),
{
    if formas.len() == 0 {
        None
    } else if bucket_of(formas.last()@) == b {
        Some(formas.len() - 1)
    } else {
        last_in_bucket(formas.drop_last(), b)
    }
}

/// Positions, in order, of the payment methods in `formas` that fall into `b`.
pub open spec fn all_in_bucket(formas: Seq<String>, b: PaymentBucket) -> Seq<int>
    decreases formas.len(),
{
    if formas.len() == 0 {
        Seq::empty()
    } else if bucket_of(formas.last()@) == b {
        all_in_bucket(formas.drop_last(), b).push(formas.len() - 1)
    } else {
        all_in_bucket(formas.drop_last(), b)
    }
}

pub open spec fn same_position(p: Option<usize>, q: Option<int>) -> bool {
    match p {
        Some(i) => q == Some(i as int),
        None => q is None,
    }
}

/// The plan for the payment methods `formas`, in the order read.
pub open spec fn plan_matches(plan: BucketPlan, formas: Seq<String>) -> bool {
    &&& same_position(plan.efectivo, last_in_bucket(formas, PaymentBucket::Efectivo))
    &&& same_position(plan.tarjeta, last_in_bucket(formas, PaymentBucket::Tarjeta))
    &&& same_position(plan.transferencia, last_in_bucket(formas, PaymentBucket::Transferencia))
    &&& same_position(plan.mercado_pago, last_in_bucket(formas, PaymentBucket::MercadoPago))
    &&& plan.otros@.map_values(|i: usize| i as int) == all_in_bucket(formas, PaymentBucket::Otros)
}

/// The column that a payment method falls into.
pub fn payment_bucket(forma_pago: &str) -> (b: PaymentBucket)
    ensures
        b == bucket_of(forma_pago@),
{
    if text_eq(forma_pago, "efectivo") {
        PaymentBucket::Efectivo
    } else if text_eq(forma_pago, "tarjeta") {
        PaymentBucket::Tarjeta
    } else if text_eq(forma_pago, "transferencia") {
        PaymentBucket::Transferencia
    } else if text_eq(forma_pago, "mercado_pago") {
        PaymentBucket::MercadoPago
    } else {
        PaymentBucket::Otros
    }
}

/// Which payment totals fill which column, for the payment methods of a
/// closure's totals in the order read.
pub fn closure_bucket_plan(formas: &Vec<String>) -> (plan: BucketPlan)
    ensures
        plan_matches(plan, formas@),
{
    let mut plan = BucketPlan {
        efectivo: None,
        tarjeta: None,
        transferencia: None,
        mercado_pago: None,
        otros: Vec::new(),
    };
    let mut i: usize = 0;
    proof {
        assert(formas@.take(0) =~= Seq::<String>::empty());
        assert(plan.otros@.map_values(|i: usize| i as int) =~= Seq::<int>::empty());
    }
    while i < formas.len()
        invariant
            i <= formas.len(),
            plan_matches(plan, formas@.take(i as int)),
        decreases formas.len() - i,
    {
        let ghost before = plan;
        let ghost prefix = formas@.take(i as int);
        let ghost next = formas@.take(i + 1);
        proof {
            assert(next.drop_last() =~= prefix);
            assert(next.last() == formas@[i as int]);
        }
        let b = payment_bucket(formas[i].as_str());
        match b {
            PaymentBucket::Efectivo => {
                plan.efectivo = Some(i);
            },
            PaymentBucket::Tarjeta => {
                plan.tarjeta = Some(i);
            },
            PaymentBucket::Transferencia => {
                plan.transferencia = Some(i);
            },
            PaymentBucket::MercadoPago => {
                plan.mercado_pago = Some(i);
            },
            PaymentBucket::Otros => {
                plan.otros.push(i);
            },
        }
        proof {
            let f = |k: usize| k as int;
            if b == PaymentBucket::Otros {
                assert(plan.otros@.map_values(f) =~= before.otros@.map_values(f).push(i as int));
            } else {
                assert(plan.otros@ == before.otros@);
            }
            assert(plan_matches(plan, next));
        }
        i = i + 1;
    }
    proof {
        assert(formas@.take(formas.len() as int) =~= formas@);
    }
    plan
}

/// The message for a closure asked for a date that is not `YYYY-MM-DD`.
pub open spec fn invalid_date_text() -> Seq<char> {
    "Fecha inválida (use YYYY-MM-DD)."@
}

/// The message for a closure asked for a date that already has one.
pub open spec fn already_closed_text() -> Seq<char> {
    "Ya existe un cierre para esa fecha"@
}

/// A date a closure may be made for: of the shape `YYYY-MM-DD`, and a day
/// of the calendar.
pub open spec fn closure_date_ok(text: Seq<char>) -> bool {
    has_ymd_shape(text) && names_calendar_date(text)
}

/// The date that a closure is asked for (today's date in the machine's time
/// zone when none is given), refused unless it is written `YYYY-MM-DD` and
/// names a day of the calendar, which chrono checks.
pub fn closure_date(date_ymd: Option<String>) -> (r: Result<String, String>)
    ensures
        date_ymd matches Some(given) ==> (r is Ok <==> closure_date_ok(given@)),
        date_ymd matches Some(given) ==> (r matches Ok(fecha) ==> fecha == given),
        date_ymd is None ==> exists|y: int, m: nat, d: nat|
            date_fields_ok(y, m as int, d as int) && is_calendar_date(y, m as int, d as int) && (r is Ok
                <==> closure_date_ok(ymd_text(y, m, d))) && (r matches Ok(fecha) ==> fecha@
                == ymd_text(y, m, d)) && (0 <= y <= 9999 ==> r is Ok),
        r matches Ok(fecha) ==> closure_date_ok(fecha@),
        r matches Err(m) ==> m@ == invalid_date_text(),
{
    let ghost asked = date_ymd;
    let fecha = date_or_today(date_ymd);
    let shaped = ymd_shape(fecha.as_str());
    let ok = shaped && chrono_parses_date(fecha.as_str(), "%Y-%m-%d");
    proof {
        if asked is None {
            let (y, m, d) = choose|y: int, m: nat, d: nat|
                date_fields_ok(y, m as int, d as int) && is_calendar_date(y, m as int, d as int)
                    && fecha@ == ymd_text(y, m, d);
            if 0 <= y <= 9999 {
                lemma_ymd_text_reads_back(y, m, d);
            }
            assert(date_fields_ok(y, m as int, d as int) && is_calendar_date(y, m as int, d as int)
                && (ok <==> closure_date_ok(ymd_text(y, m, d))) && (0 <= y <= 9999 ==> ok));
        }
    }
    if !ok {
        return Err(String::from_str("Fecha inválida (use YYYY-MM-DD)."));
    }
    Ok(fecha)
}

/// A closure is refused for a date that already has one.
pub fn check_not_closed(existing: Option<i32>) -> (r: Result<(), String>)
    ensures
        r is Ok <==> existing is None,
        r matches Err(m) ==> m@ == already_closed_text(),
{
    match existing {
        Some(_) => Err(String::from_str("Ya existe un cierre para esa fecha")),
        None => Ok(()),
    }
}

/// The number of sales recorded in a closure: the count converted to
/// `i32` with `as`, which keeps its low 32 bits.
pub fn closure_sales_count(cnt: i64) -> (n: i32)
    ensures
        n == cnt as i32,
{
    cnt as i32
}

} // verus!
