//! The checks that a sale passes before it is recorded: every product in
//! stock, every combo enabled and its parts in stock, every line naming a
//! product or a combo, and every product in stock for all that the sale
//! takes of it over its lines (direct and through combos); the messages for
//! what fails; and the stock that a recorded sale takes away.
use vstd::prelude::*;
use crate::text::{int_text, i64_text, i128_text, join_lines, joined, texts};

verus! {

/// One line of a sale as the cashier entered it. The price is not taken
/// from the cashier: it is read from the store.
pub struct NewSaleItemInput {
    pub product_id: Option<i32>,
    pub combo_id: Option<i32>,
    pub cantidad: i32,
}

/// A sale as the cashier entered it.
pub struct NewSaleRequest {
    pub user_id: i32,
    pub forma_pago: String,
    pub items: Vec<NewSaleItemInput>,
}

/// What a sale line refers to: a product when it names one, else a combo
/// when it names one, else nothing.
pub enum LineKind {
    Product(i32),
    Combo(i32),
    Invalid,
}

/// A product that a combo is made of: how many of it one combo holds, its
/// name and the stock read for it.
pub struct ComboPartStock {
    pub product_id: i32,
    pub cantidad: i32,
    pub nombre: String,
    pub stock: i32,
}

/// What was read from the store for one sale line.
pub enum LineStock {
    Product { id: i32, nombre: String, quantity: i32 },
    Combo { id: i32, nombre: String, enabled: bool, parts: Vec<ComboPartStock> },
    Invalid,
}

/// A sale line with what was read for it.
pub struct SaleLineStock {
    pub cantidad: i32,
    pub stock: LineStock,
}

/// A reason why a sale cannot be recorded.
pub enum SaleIssue {
    InsufficientStock { nombre: String, id: i32, required: i32, available: i32 },
    ComboDisabled { nombre: String, id: i32 },
    ComboPartShort { producto: String, combo: String, required: i32, available: i32 },
    InvalidItem,
    TotalShort { nombre: String, id: i32, required_total: i128, available: i32 },
}

/// The stock that one product must have for a sale: which product, its
/// name, how many the sale takes and how many were read.
pub struct Requirement {
    pub product_id: i32,
    pub nombre: String,
    pub needed: int,
    pub available: i32,
}

pub open spec fn line_kind_of(item: NewSaleItemInput) -> LineKind {
    match item.product_id {
        Some(pid) => LineKind::Product(pid),
        None => match item.combo_id {
            Some(cid) => LineKind::Combo(cid),
            None => LineKind::Invalid,
        },
    }
}

/// How many of a combo's part `cantidad` combos take.
pub open spec fn part_needed(part: ComboPartStock, cantidad: i32) -> int {
    part.cantidad * cantidad
}

/// The stock that every part of a combo needs fits in an `i32`.
pub open spec fn parts_fit(parts: Seq<ComboPartStock>, cantidad: i32) -> bool {
    forall|k: int|
        0 <= k < parts.len() ==> i32::MIN <= #[trigger] part_needed(parts[k], cantidad) <= i32::MAX
}

/// The stock that every combo line of the sale needs fits in an `i32`.
pub open spec fn line_fits(line: SaleLineStock) -> bool {
    match line.stock {
        LineStock::Combo { parts, .. } => parts_fit(parts@, line.cantidad),
        _ => true,
    }
}

pub open spec fn lines_fit(lines: Seq<SaleLineStock>) -> bool {
    forall|k: int| 0 <= k < lines.len() ==> line_fits(#[trigger] lines[k])
}

/// The parts of a combo that lack stock, in the order of the parts.
pub open spec fn part_issues(parts: Seq<ComboPartStock>, combo: String, cantidad: i32) -> Seq<
    SaleIssue,
>
    decreases parts.len(),
{
    if parts.len() == 0 {
        Seq::empty()
    } else {
        let before = part_issues(parts.drop_last(), combo, cantidad);
        let p = parts.last();
        let needed = part_needed(p, cantidad);
        if p.stock < needed {
            before.push(
                SaleIssue::ComboPartShort {
                    producto: p.nombre,
                    combo: combo,
                    required: needed as i32,
                    available: p.stock,
                },
            )
        } else {
            before
        }
    }
}

/// What is wrong with one sale line: a product short of stock; a combo that
/// is disabled and then each of its parts that is short of stock; a line
/// that names neither.
pub open spec fn line_issues(line: SaleLineStock) -> Seq<SaleIssue> {
    match line.stock {
        LineStock::Product { id, nombre, quantity } => {
            if quantity < line.cantidad {
                seq![
                    SaleIssue::InsufficientStock {
                        nombre: nombre,
                        id: id,
                        required: line.cantidad,
                        available: quantity,
                    },
                ]
            } else {
                Seq::empty()
            }
        },
        LineStock::Combo { id, nombre, enabled, parts } => {
            let head = if enabled {
                Seq::empty()
            } else {
                seq![SaleIssue::ComboDisabled { nombre: nombre, id: id }]
            };
            head + part_issues(parts@, nombre, line.cantidad)
        },
        LineStock::Invalid => seq![SaleIssue::InvalidItem],
    }
}

/// What is wrong with each line of a sale taken alone, line after line.
pub open spec fn line_by_line_issues(lines: Seq<SaleLineStock>) -> Seq<SaleIssue>
    decreases lines.len(),
{
    if lines.len() == 0 {
        Seq::empty()
    } else {
        line_by_line_issues(lines.drop_last()) + line_issues(lines.last())
    }
}

/// The message shown for an issue.
pub open spec fn issue_text(issue: SaleIssue) -> Seq<char> {
    match issue {
        SaleIssue::InsufficientStock { nombre, id, required, available } => "Stock insuficiente para '"@
            + nombre@ + "' (id "@ + int_text(id as int) + "): requerido "@ + int_text(
            required as int,
        ) + ", disponible "@ + int_text(available as int),
        SaleIssue::ComboDisabled { nombre, id } => "El combo '"@ + nombre@ + "' (id "@ + int_text(
            id as int,
        ) + ") está inactivo"@,
        SaleIssue::ComboPartShort { producto, combo, required, available } => "'"@ + producto@
            + "' del combo '"@ + combo@ + "' sin stock suficiente: requerido "@ + int_text(
            required as int,
        ) + ", disponible "@ + int_text(available as int),
        SaleIssue::InvalidItem => "Ítem inválido (sin product_id ni combo_id)"@,
        SaleIssue::TotalShort { nombre, id, required_total, available } => "Stock insuficiente para '"@
            + nombre@ + "' (id "@ + int_text(id as int) + "): requerido en total "@ + int_text(
            required_total as int,
        ) + ", disponible "@ + int_text(available as int),
    }
}

pub open spec fn issue_texts(issues: Seq<SaleIssue>) -> Seq<Seq<char>> {
    issues.map_values(|i: SaleIssue| issue_text(i))
}

/// The stock requirements of a combo's parts.
pub open spec fn part_requirements(parts: Seq<ComboPartStock>, cantidad: i32) -> Seq<Requirement> {
    parts.map_values(
        |p: ComboPartStock|
            Requirement {
                product_id: p.product_id,
                nombre: p.nombre,
                needed: part_needed(p, cantidad),
                available: p.stock,
            },
    )
}

/// The stock requirements of one line.
pub open spec fn line_requirements(line: SaleLineStock) -> Seq<Requirement> {
    match line.stock {
        LineStock::Product { id, nombre, quantity } => seq![
            Requirement {
                product_id: id,
                nombre: nombre,
                needed: line.cantidad as int,
                available: quantity,
            },
        ],
        LineStock::Combo { parts, .. } => part_requirements(parts@, line.cantidad),
        LineStock::Invalid => Seq::empty(),
    }
}

/// The stock requirements of a whole sale.
pub open spec fn sale_requirements(lines: Seq<SaleLineStock>) -> Seq<Requirement>
    decreases lines.len(),
{
    if lines.len() == 0 {
        Seq::empty()
    } else {
        sale_requirements(lines.drop_last()) + line_requirements(lines.last())
    }
}

/// How many of product `pid` the requirements take in all.
pub open spec fn total_needed(reqs: Seq<Requirement>, pid: int) -> int
    decreases reqs.len(),
{
    if reqs.len() == 0 {
        0
    } else {
        total_needed(reqs.drop_last(), pid) + if reqs.last().product_id == pid {
            reqs.last().needed
        } else {
            0
        }
    }
}

/// How many requirements name product `pid`.
pub open spec fn occurrences(reqs: Seq<Requirement>, pid: int) -> nat
    decreases reqs.len(),
{
    if reqs.len() == 0 {
        0
    } else {
        occurrences(reqs.drop_last(), pid) + if reqs.last().product_id == pid {
            1nat
        } else {
            0nat
        }
    }
}

/// Requirement `i` names a product that the sale names more than once, and
/// all that the sale takes of it together is more than the stock read for it
/// there.
pub open spec fn over_total(reqs: Seq<Requirement>, i: int) -> bool {
    &&& occurrences(reqs, reqs[i].product_id as int) >= 2
    &&& total_needed(reqs, reqs[i].product_id as int) > reqs[i].available
}

/// Requirement `i` is the first of its product that is over the total.
pub open spec fn reports_total(reqs: Seq<Requirement>, i: int) -> bool {
    &&& over_total(reqs, i)
    &&& forall|j: int|
        0 <= j < i && (#[trigger] reqs[j]).product_id == reqs[i].product_id ==> !over_total(
            reqs,
            j,
        )
}

/// The issue for a product whose total over the sale lacks stock.
pub open spec fn total_issue(reqs: Seq<Requirement>, i: int) -> SaleIssue {
    SaleIssue::TotalShort {
        nombre: reqs[i].nombre,
        id: reqs[i].product_id,
        required_total: total_needed(reqs, reqs[i].product_id as int) as i128,
        available: reqs[i].available,
    }
}

/// The products that the first `n` requirements report short in total, once
/// each, in the order of the requirements.
pub open spec fn total_issues_upto(reqs: Seq<Requirement>, n: nat) -> Seq<SaleIssue>
    decreases n,
{
    if n == 0 {
        Seq::empty()
    } else {
        total_issues_upto(reqs, (n - 1) as nat) + if reports_total(reqs, n - 1) {
            seq![total_issue(reqs, n - 1)]
        } else {
            Seq::empty()
        }
    }
}

/// What is wrong with a sale: each line taken alone, line after line; then
/// each product that the sale names more than once and of which it takes in
/// all more than the stock read for it.
pub open spec fn sale_issues(lines: Seq<SaleLineStock>) -> Seq<SaleIssue> {
    line_by_line_issues(lines) + total_issues_upto(
        sale_requirements(lines),
        sale_requirements(lines).len(),
    )
}

/// What a sale line refers to.
pub fn line_kind(item: &NewSaleItemInput) -> (k: LineKind)
    ensures
        k == line_kind_of(*item),
{
    match item.product_id {
        Some(pid) => LineKind::Product(pid),
        None => match item.combo_id {
            Some(cid) => LineKind::Combo(cid),
            None => LineKind::Invalid,
        },
    }
}

/// The message shown for an issue.
pub fn issue_message(issue: &SaleIssue) -> (m: String)
    ensures
        m@ == issue_text(*issue),
{
    match issue {
        SaleIssue::InsufficientStock { nombre, id, required, available } => {
            let mut m = String::from_str("Stock insuficiente para '");
            m.append(nombre.as_str());
            m.append("' (id ");
            m.append(i64_text(*id as i64).as_str());
            m.append("): requerido ");
            m.append(i64_text(*required as i64).as_str());
            m.append(", disponible ");
            m.append(i64_text(*available as i64).as_str());
            proof {
                assert(m@ =~= issue_text(*issue));
            }
            m
        },
        SaleIssue::ComboDisabled { nombre, id } => {
            let mut m = String::from_str("El combo '");
            m.append(nombre.as_str());
            m.append("' (id ");
            m.append(i64_text(*id as i64).as_str());
            m.append(") está inactivo");
            proof {
                assert(m@ =~= issue_text(*issue));
            }
            m
        },
        SaleIssue::ComboPartShort { producto, combo, required, available } => {
            let mut m = String::from_str("'");
            m.append(producto.as_str());
            m.append("' del combo '");
            m.append(combo.as_str());
            m.append("' sin stock suficiente: requerido ");
            m.append(i64_text(*required as i64).as_str());
            m.append(", disponible ");
            m.append(i64_text(*available as i64).as_str());
            proof {
                assert(m@ =~= issue_text(*issue));
            }
            m
        },
        SaleIssue::InvalidItem => String::from_str("Ítem inválido (sin product_id ni combo_id)"),
        SaleIssue::TotalShort { nombre, id, required_total, available } => {
            let mut m = String::from_str("Stock insuficiente para '");
            m.append(nombre.as_str());
            m.append("' (id ");
            m.append(i64_text(*id as i64).as_str());
            m.append("): requerido en total ");
            m.append(i128_text(*required_total).as_str());
            m.append(", disponible ");
            m.append(i64_text(*available as i64).as_str());
            proof {
                assert(m@ =~= issue_text(*issue));
            }
            m
        },
    }
}

/// Appends the parts of a combo that lack stock for `cantidad` combos.
fn push_part_issues(
    out: &mut Vec<SaleIssue>,
    parts: &Vec<ComboPartStock>,
    combo: &String,
    cantidad: i32,
)
    requires
        parts_fit(parts@, cantidad),
    ensures
        final(out)@ == old(out)@ + part_issues(parts@, *combo, cantidad),
{
    let ghost start = out@;
    let mut k: usize = 0;
    while k < parts.len()
        invariant
            k <= parts.len(),
            parts_fit(parts@, cantidad),
            out@ == start + part_issues(parts@.take(k as int), *combo, cantidad),
        decreases parts.len() - k,
    {
        let p = &parts[k];
        assert(i32::MIN <= part_needed(parts@[k as int], cantidad) <= i32::MAX);
        let needed = p.cantidad * cantidad;
        proof {
            assert(parts@.take(k + 1).drop_last() =~= parts@.take(k as int));
            assert(parts@.take(k + 1).last() == parts@[k as int]);
        }
        if p.stock < needed {
            out.push(
                SaleIssue::ComboPartShort {
                    producto: p.nombre.clone(),
                    combo: combo.clone(),
                    required: needed,
                    available: p.stock,
                },
            );
        }
        proof {
            assert(out@ =~= start + part_issues(parts@.take(k + 1), *combo, cantidad));
        }
        k = k + 1;
    }
    proof {
        assert(parts@.take(parts.len() as int) =~= parts@);
    }
}

/// What is wrong with each line of a sale taken alone, line after line.
fn line_by_line_issues_of(lines: &Vec<SaleLineStock>) -> (issues: Vec<SaleIssue>)
    requires
        lines_fit(lines@),
    ensures
        issues@ == line_by_line_issues(lines@),
{
    let mut issues: Vec<SaleIssue> = Vec::new();
    let mut i: usize = 0;
    while i < lines.len()
        invariant
            i <= lines.len(),
            lines_fit(lines@),
            issues@ == line_by_line_issues(lines@.take(i as int)),
        decreases lines.len() - i,
    {
        let line = &lines[i];
        let ghost before = issues@;
        proof {
            assert(line_fits(lines@[i as int]));
            assert(lines@.take(i + 1).drop_last() =~= lines@.take(i as int));
            assert(lines@.take(i + 1).last() == lines@[i as int]);
        }
        match &line.stock {
            LineStock::Product { id, nombre, quantity } => {
                if *quantity < line.cantidad {
                    issues.push(
                        SaleIssue::InsufficientStock {
                            nombre: nombre.clone(),
                            id: *id,
                            required: line.cantidad,
                            available: *quantity,
                        },
                    );
                }
                proof {
                    assert(issues@ =~= before + line_issues(*line));
                }
            },
            LineStock::Combo { id, nombre, enabled, parts } => {
                if !*enabled {
                    issues.push(SaleIssue::ComboDisabled { nombre: nombre.clone(), id: *id });
                }
                let ghost mid = issues@;
                push_part_issues(&mut issues, parts, nombre, line.cantidad);
                proof {
                    assert(issues@ =~= before + line_issues(*line));
                }
            },
            LineStock::Invalid => {
                issues.push(SaleIssue::InvalidItem);
                proof {
                    assert(issues@ =~= before + line_issues(*line));
                }
            },
        }
        i = i + 1;
    }
    proof {
        assert(lines@.take(lines.len() as int) =~= lines@);
    }
    issues
}

/// A stock requirement as it is worked out.
struct ReqRow {
    product_id: i32,
    nombre: String,
    needed: i32,
    available: i32,
}

spec fn req_of(r: ReqRow) -> Requirement {
    Requirement {
        product_id: r.product_id,
        nombre: r.nombre,
        needed: r.needed as int,
        available: r.available,
    }
}

spec fn reqs_of(rows: Seq<ReqRow>) -> Seq<Requirement> {
    rows.map_values(|r: ReqRow| req_of(r))
}

/// The stock requirements of a sale, line after line.
fn requirements_of(lines: &Vec<SaleLineStock>) -> (rows: Vec<ReqRow>)
    requires
        lines_fit(lines@),
    ensures
        reqs_of(rows@) == sale_requirements(lines@),
{
    let mut rows: Vec<ReqRow> = Vec::new();
    let mut i: usize = 0;
    proof {
        assert(reqs_of(rows@) =~= sale_requirements(lines@.take(0)));
    }
    while i < lines.len()
        invariant
            i <= lines.len(),
            lines_fit(lines@),
            reqs_of(rows@) == sale_requirements(lines@.take(i as int)),
        decreases lines.len() - i,
    {
        let line = &lines[i];
        let ghost before = reqs_of(rows@);
        proof {
            assert(line_fits(lines@[i as int]));
            assert(lines@.take(i + 1).drop_last() =~= lines@.take(i as int));
            assert(lines@.take(i + 1).last() == lines@[i as int]);
        }
        match &line.stock {
            LineStock::Product { id, nombre, quantity } => {
                rows.push(
                    ReqRow {
                        product_id: *id,
                        nombre: nombre.clone(),
                        needed: line.cantidad,
                        available: *quantity,
                    },
                );
                proof {
                    assert(reqs_of(rows@) =~= before + line_requirements(*line));
                }
            },
            LineStock::Combo { parts, .. } => {
                let mut k: usize = 0;
                proof {
                    assert(reqs_of(rows@) =~= before + part_requirements(
                        parts@.take(0),
                        line.cantidad,
                    ));
                }
                while k < parts.len()
                    invariant
                        k <= parts.len(),
                        parts_fit(parts@, line.cantidad),
                        reqs_of(rows@) == before + part_requirements(
                            parts@.take(k as int),
                            line.cantidad,
                        ),
                    decreases parts.len() - k,
                {
                    let p = &parts[k];
                    assert(i32::MIN <= part_needed(parts@[k as int], line.cantidad) <= i32::MAX);
                    let ghost rows_before = rows@;
                    rows.push(
                        ReqRow {
                            product_id: p.product_id,
                            nombre: p.nombre.clone(),
                            needed: p.cantidad * line.cantidad,
                            available: p.stock,
                        },
                    );
                    proof {
                        let c = line.cantidad;
                        let prev = part_requirements(parts@.take(k as int), c);
                        let next = part_requirements(parts@.take(k + 1), c);
                        assert(parts@.take(k + 1) =~= parts@.take(k as int).push(parts@[k as int]));
                        assert(next.len() == k + 1);
                        assert forall|m: int| 0 <= m < k implies next[m] == prev[m] by {
                            assert(parts@.take(k + 1)[m] == parts@.take(k as int)[m]);
                        }
                        assert(next[k as int] == req_of(rows@[rows@.len() - 1]));
                        assert(next =~= prev.push(req_of(rows@[rows@.len() - 1])));
                        assert(rows@ == rows_before.push(rows@[rows@.len() - 1]));
                        assert(reqs_of(rows@) =~= reqs_of(rows_before).push(
                            req_of(rows@[rows@.len() - 1]),
                        ));
                        assert(reqs_of(rows@) =~= before + part_requirements(
                            parts@.take(k + 1),
                            line.cantidad,
                        ));
                    }
                    k = k + 1;
                }
                proof {
                    assert(parts@.take(parts.len() as int) =~= parts@);
                }
            },
            LineStock::Invalid => {
                proof {
                    assert(reqs_of(rows@) =~= before + line_requirements(*line));
                }
            },
        }
        i = i + 1;
    }
    proof {
        assert(lines@.take(lines.len() as int) =~= lines@);
    }
    rows
}

/// How much of product `pid` the requirements take in all, and how many of
/// them name it.
fn total_of(rows: &Vec<ReqRow>, pid: i32) -> (r: (i128, usize))
    ensures
        r.0 == total_needed(reqs_of(rows@), pid as int),
        r.1 == occurrences(reqs_of(rows@), pid as int),
{
    let mut total: i128 = 0;
    let mut count: usize = 0;
    let mut j: usize = 0;
    proof {
        assert(reqs_of(rows@).take(0) =~= Seq::<Requirement>::empty());
    }
    while j < rows.len()
        invariant
            j <= rows.len(),
            count <= j,
            -(j as int) * 2147483648 <= total <= (j as int) * 2147483648,
            total == total_needed(reqs_of(rows@).take(j as int), pid as int),
            count == occurrences(reqs_of(rows@).take(j as int), pid as int),
        decreases rows.len() - j,
    {
        proof {
            let t = reqs_of(rows@).take(j + 1);
            assert(t.drop_last() =~= reqs_of(rows@).take(j as int));
            assert(t.last() == req_of(rows@[j as int]));
        }
        if rows[j].product_id == pid {
            total = total + rows[j].needed as i128;
            count = count + 1;
        }
        j = j + 1;
    }
    proof {
        assert(reqs_of(rows@).take(rows.len() as int) =~= reqs_of(rows@));
    }
    (total, count)
}

/// Appends, once for each product and in the order of the requirements,
/// the products that the sale names more than once and of which it takes in
/// all more than the stock read for it.
fn push_total_issues(out: &mut Vec<SaleIssue>, rows: &Vec<ReqRow>)
    ensures
        final(out)@ == old(out)@ + total_issues_upto(reqs_of(rows@), rows@.len()),
{
    let ghost reqs = reqs_of(rows@);
    let ghost start = out@;
    let mut i: usize = 0;
    while i < rows.len()
        invariant
            i <= rows.len(),
            reqs == reqs_of(rows@),
            out@ == start + total_issues_upto(reqs, i as nat),
        decreases rows.len() - i,
    {
        let pid = rows[i].product_id;
        let (total, count) = total_of(rows, pid);
        assert(reqs[i as int] == req_of(rows@[i as int]));
        let over = count >= 2 && total > rows[i].available as i128;
        let mut earlier = false;
        let mut j: usize = 0;
        while j < i
            invariant
                j <= i,
                i < rows.len(),
                reqs == reqs_of(rows@),
                pid == reqs[i as int].product_id,
                total == total_needed(reqs, pid as int),
                count == occurrences(reqs, pid as int),
                earlier <==> exists|m: int|
                    0 <= m < j && (#[trigger] reqs[m]).product_id == pid && over_total(reqs, m),
            decreases i - j,
        {
            assert(reqs[j as int] == req_of(rows@[j as int]));
            if rows[j].product_id == pid && count >= 2 && total > rows[j].available as i128 {
                earlier = true;
                assert(over_total(reqs, j as int));
            }
            proof {
                if !earlier {
                    assert forall|m: int|
                        0 <= m < j + 1 && (#[trigger] reqs[m]).product_id == pid implies !over_total(
                        reqs,
                        m,
                    ) by {
                        if m < j {
                        } else {
                        }
                    }
                }
            }
            j = j + 1;
        }
        proof {
            assert(over == over_total(reqs, i as int));
            assert((over && !earlier) == reports_total(reqs, i as int));
        }
        if over && !earlier {
            out.push(
                SaleIssue::TotalShort {
                    nombre: rows[i].nombre.clone(),
                    id: pid,
                    required_total: total,
                    available: rows[i].available,
                },
            );
            proof {
                assert(out@ =~= start + total_issues_upto(reqs, (i + 1) as nat));
            }
        } else {
            proof {
                assert(out@ =~= start + total_issues_upto(reqs, (i + 1) as nat));
            }
        }
        i = i + 1;
    }
}

/// What is wrong with a sale: each line taken alone, line after line; then
/// each product that the sale names more than once and of which it takes in
/// all more than the stock read for it.
pub fn sale_issues_of(lines: &Vec<SaleLineStock>) -> (issues: Vec<SaleIssue>)
    requires
        lines_fit(lines@),
    ensures
        issues@ == sale_issues(lines@),
{
    let mut issues = line_by_line_issues_of(lines);
    let rows = requirements_of(lines);
    push_total_issues(&mut issues, &rows);
    issues
}

/// Whether a sale can be recorded: `Ok` when nothing is wrong with it (so
/// that it takes of no product more than the stock read for it), else the
/// messages of all that is wrong, one per line.
pub fn check_sale(lines: &Vec<SaleLineStock>) -> (r: Result<(), String>)
    requires
        lines_fit(lines@),
    ensures
        r is Ok <==> sale_issues(lines@).len() == 0,
        r is Ok ==> forall|k: int|
            0 <= k < sale_requirements(lines@).len() ==> total_needed(
                sale_requirements(lines@),
                (#[trigger] sale_requirements(lines@)[k]).product_id as int,
            ) <= sale_requirements(lines@)[k].available,
        r matches Err(text) ==> text@ == joined(issue_texts(sale_issues(lines@)), seq!['\n']),
{
    let issues = sale_issues_of(lines);
    if issues.len() == 0 {
        proof {
            lemma_checked_sale_keeps_stock(lines@);
        }
        return Ok(());
    }
    let mut messages: Vec<String> = Vec::new();
    let mut i: usize = 0;
    while i < issues.len()
        invariant
            i <= issues.len(),
            messages@.len() == i,
            texts(messages@) == issue_texts(issues@.take(i as int)),
        decreases issues.len() - i,
    {
        let m = issue_message(&issues[i]);
        let ghost before = messages@;
        messages.push(m);
        proof {
            let want = issue_texts(issues@.take(i + 1));
            assert(issues@.take(i + 1).len() == i + 1);
            assert(texts(messages@).len() == want.len());
            assert forall|j: int| 0 <= j < want.len() implies texts(messages@)[j] == want[j] by {
                if j < i {
                    assert(messages@[j] == before[j]);
                    assert(texts(before)[j] == issue_texts(issues@.take(i as int))[j]);
                }
            }
            assert(texts(messages@) =~= want);
        }
        i = i + 1;
    }
    proof {
        assert(issues@.take(issues.len() as int) =~= issues@);
    }
    Err(join_lines(&messages))
}

/// The stock that `cantidad` combos take from each of their parts, given as
/// (product, quantity) pairs in the order of the parts.
pub fn combo_stock_decrements(parts: &Vec<(i32, i32)>, cantidad: i32) -> (d: Vec<(i32, i32)>)
    requires
        forall|k: int|
            0 <= k < parts@.len() ==> i32::MIN <= #[trigger] parts@[k].1 * cantidad <= i32::MAX,
    ensures
        d@.len() == parts@.len(),
        forall|k: int|
            0 <= k < parts@.len() ==> #[trigger] d@[k] == (parts@[k].0, (parts@[k].1 * cantidad) as i32),
{
    let mut d: Vec<(i32, i32)> = Vec::new();
    let mut k: usize = 0;
    while k < parts.len()
        invariant
            k <= parts.len(),
            d@.len() == k,
            forall|j: int|
                0 <= j < parts@.len() ==> i32::MIN <= #[trigger] parts@[j].1 * cantidad <= i32::MAX,
            forall|j: int|
                0 <= j < k ==> #[trigger] d@[j] == (parts@[j].0, (parts@[j].1 * cantidad) as i32),
        decreases parts.len() - k,
    {
        let (pid, per_combo) = parts[k];
        assert(i32::MIN <= parts@[k as int].1 * cantidad <= i32::MAX);
        d.push((pid, per_combo * cantidad));
        k = k + 1;
    }
    d
}

pub proof fn lemma_part_issues_empty(parts: Seq<ComboPartStock>, combo: String, cantidad: i32)
    requires
        part_issues(parts, combo, cantidad).len() == 0,
    ensures
        forall|k: int|
            0 <= k < parts.len() ==> part_needed(#[trigger] parts[k], cantidad) <= parts[k].stock,
    decreases parts.len(),
{
    if parts.len() > 0 {
        let p = parts.last();
        if p.stock < part_needed(p, cantidad) {
            assert(part_issues(parts, combo, cantidad).len() > 0);
        }
        lemma_part_issues_empty(parts.drop_last(), combo, cantidad);
        assert forall|k: int| 0 <= k < parts.len() implies part_needed(
            #[trigger] parts[k],
            cantidad,
        ) <= parts[k].stock by {
            if k < parts.len() - 1 {
                assert(parts[k] == parts.drop_last()[k]);
            }
        }
    }
}

/// A sale whose lines each pass the checks asks of each product no more than
/// the stock read for it, requirement by requirement.
pub proof fn lemma_checked_sale_within_stock(lines: Seq<SaleLineStock>)
    requires
        line_by_line_issues(lines).len() == 0,
    ensures
        forall|k: int|
            0 <= k < sale_requirements(lines).len() ==> (#[trigger] sale_requirements(lines)[k]).needed
                <= sale_requirements(lines)[k].available,
    decreases lines.len(),
{
    if lines.len() > 0 {
        let prev = lines.drop_last();
        let line = lines.last();
        assert(line_by_line_issues(lines) == line_by_line_issues(prev) + line_issues(line));
        lemma_checked_sale_within_stock(prev);
        let reqs = sale_requirements(lines);
        let a = sale_requirements(prev);
        let b = line_requirements(line);
        assert(reqs == a + b);
        assert(line_issues(line).len() == 0);
        match line.stock {
            LineStock::Combo { id, nombre, enabled, parts } => {
                assert(part_issues(parts@, nombre, line.cantidad).len() == 0);
                lemma_part_issues_empty(parts@, nombre, line.cantidad);
            },
            _ => {},
        }
        assert forall|k: int| 0 <= k < reqs.len() implies (#[trigger] reqs[k]).needed
            <= reqs[k].available by {
            if k >= a.len() {
                assert(reqs[k] == b[k - a.len()]);
            }
        }
    }
}

/// When a product is named by only one requirement, the sale takes of it
/// exactly what that requirement needs.
pub proof fn lemma_total_of_unique_product(reqs: Seq<Requirement>, k: int)
    requires
        0 <= k < reqs.len(),
        forall|j: int| 0 <= j < reqs.len() && j != k ==> (#[trigger] reqs[j]).product_id
            != reqs[k].product_id,
    ensures
        total_needed(reqs, reqs[k].product_id as int) == reqs[k].needed,
    decreases reqs.len(),
{
    let pid = reqs[k].product_id;
    if k == reqs.len() - 1 {
        lemma_total_absent(reqs.drop_last(), pid as int);
    } else {
        let prev = reqs.drop_last();
        assert(prev[k] == reqs[k]);
        assert forall|j: int| 0 <= j < prev.len() && j != k implies (#[trigger] prev[j]).product_id
            != prev[k].product_id by {
            assert(prev[j] == reqs[j]);
        }
        lemma_total_of_unique_product(prev, k);
        assert(reqs.last() == reqs[reqs.len() - 1]);
    }
}

/// A product that no requirement names is not taken at all.
pub proof fn lemma_total_absent(reqs: Seq<Requirement>, pid: int)
    requires
        forall|j: int| 0 <= j < reqs.len() ==> (#[trigger] reqs[j]).product_id != pid,
    ensures
        total_needed(reqs, pid) == 0,
    decreases reqs.len(),
{
    if reqs.len() > 0 {
        let prev = reqs.drop_last();
        assert forall|j: int| 0 <= j < prev.len() implies (#[trigger] prev[j]).product_id != pid by {
            assert(prev[j] == reqs[j]);
        }
        lemma_total_absent(prev, pid);
        assert(reqs.last() == reqs[reqs.len() - 1]);
    }
}

/// Every requirement counts for its own product.
pub proof fn lemma_occurrences_present(reqs: Seq<Requirement>, k: int)
    requires
        0 <= k < reqs.len(),
    ensures
        occurrences(reqs, reqs[k].product_id as int) >= 1,
    decreases reqs.len(),
{
    if k < reqs.len() - 1 {
        assert(reqs.drop_last()[k] == reqs[k]);
        lemma_occurrences_present(reqs.drop_last(), k);
    }
}

/// A product that no requirement counts is named by none.
pub proof fn lemma_occurrences_zero(reqs: Seq<Requirement>, pid: int)
    requires
        occurrences(reqs, pid) == 0,
    ensures
        forall|j: int| 0 <= j < reqs.len() ==> (#[trigger] reqs[j]).product_id != pid,
    decreases reqs.len(),
{
    if reqs.len() > 0 {
        lemma_occurrences_zero(reqs.drop_last(), pid);
        assert forall|j: int| 0 <= j < reqs.len() implies (#[trigger] reqs[j]).product_id != pid by {
            if j < reqs.len() - 1 {
                assert(reqs[j] == reqs.drop_last()[j]);
            }
        }
    }
}

/// A product counted once is named by one requirement only.
pub proof fn lemma_occurrence_unique(reqs: Seq<Requirement>, k: int)
    requires
        0 <= k < reqs.len(),
        occurrences(reqs, reqs[k].product_id as int) == 1,
    ensures
        forall|j: int| 0 <= j < reqs.len() && j != k ==> (#[trigger] reqs[j]).product_id
            != reqs[k].product_id,
    decreases reqs.len(),
{
    let pid = reqs[k].product_id as int;
    let prev = reqs.drop_last();
    if k == reqs.len() - 1 {
        lemma_occurrences_zero(prev, pid);
        assert forall|j: int| 0 <= j < reqs.len() && j != k implies (#[trigger] reqs[j]).product_id
            != reqs[k].product_id by {
            assert(reqs[j] == prev[j]);
        }
    } else {
        assert(prev[k] == reqs[k]);
        if reqs.last().product_id == pid {
            lemma_occurrences_present(prev, k);
        }
        lemma_occurrence_unique(prev, k);
        assert forall|j: int| 0 <= j < reqs.len() && j != k implies (#[trigger] reqs[j]).product_id
            != reqs[k].product_id by {
            if j < reqs.len() - 1 {
                assert(reqs[j] == prev[j]);
            }
        }
    }
}

/// A requirement over the total has, at or before it, one of its product
/// that reports it.
pub proof fn lemma_total_reported(reqs: Seq<Requirement>, i: int)
    requires
        0 <= i < reqs.len(),
        over_total(reqs, i),
    ensures
        exists|j: int|
            0 <= j <= i && reqs[j].product_id == reqs[i].product_id && #[trigger] reports_total(
                reqs,
                j,
            ),
    decreases i,
{
    if reports_total(reqs, i) {
        assert(reports_total(reqs, i));
    } else {
        let j = choose|j: int|
            0 <= j < i && (#[trigger] reqs[j]).product_id == reqs[i].product_id && over_total(
                reqs,
                j,
            );
        lemma_total_reported(reqs, j);
    }
}

/// No total issue among the first `n` requirements means none of them
/// reports one.
pub proof fn lemma_no_total_issues(reqs: Seq<Requirement>, n: nat)
    requires
        total_issues_upto(reqs, n).len() == 0,
    ensures
        forall|i: int| 0 <= i < n ==> !#[trigger] reports_total(reqs, i),
    decreases n,
{
    if n > 0 {
        lemma_no_total_issues(reqs, (n - 1) as nat);
    }
}

/// A sale that passes the checks never takes more of a product, over all its
/// lines (direct and through combos), than the stock read for it, so no
/// stock goes below zero.
pub proof fn lemma_checked_sale_keeps_stock(lines: Seq<SaleLineStock>)
    requires
        sale_issues(lines).len() == 0,
    ensures
        forall|k: int|
            0 <= k < sale_requirements(lines).len() ==> total_needed(
                sale_requirements(lines),
                (#[trigger] sale_requirements(lines)[k]).product_id as int,
            ) <= sale_requirements(lines)[k].available,
{
    let reqs = sale_requirements(lines);
    lemma_checked_sale_within_stock(lines);
    lemma_no_total_issues(reqs, reqs.len());
    assert forall|k: int| 0 <= k < reqs.len() implies total_needed(
        reqs,
        (#[trigger] reqs[k]).product_id as int,
    ) <= reqs[k].available by {
        let pid = reqs[k].product_id as int;
        lemma_occurrences_present(reqs, k);
        if occurrences(reqs, pid) >= 2 {
            if total_needed(reqs, pid) > reqs[k].available {
                assert(over_total(reqs, k));
                lemma_total_reported(reqs, k);
            }
        } else {
            lemma_occurrence_unique(reqs, k);
            lemma_total_of_unique_product(reqs, k);
        }
    }
}

} // verus!
