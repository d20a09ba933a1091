//! Point-of-sale rules for a small shop: stock checks for sales, combo
//! validation, login decisions, daily closures, paging and the text
//! that these produce.
use vstd::prelude::*;
use vstd::string::*;

pub mod text;
pub mod dates;
pub mod paging;
pub mod venta;
pub mod auth;
pub mod usuarios;
pub mod inventario;
pub mod combos;
pub mod historial_ventas;
pub mod cierres;

verus! {

/// The greeting for `name`.
pub fn greet(name: &str) -> (g: String)
    ensures
        g@ == "Hello, "@ + name@ + "! You've been greeted from Rust!"@,
{
    let mut g = String::from_str("Hello, ");
    g.append(name);
    g.append("! You've been greeted from Rust!");
    g
}

} // verus!
