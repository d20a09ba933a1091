# inventario

The rules of a small shop's point-of-sale program, written in Verus and
proved against their contracts, and a thin shell that keeps the shop's data
in SQLite.

## Layout

- `src/` — the verified library.
  - `text.rs`: Unicode trimming, blank texts, SQL `LIKE` patterns, decimal
    numbers, zero padding, joining lines; the law that trimming twice is
    trimming once.
  - `dates.rs`: dates and times written as `YYYY-MM-DD` and
    `YYYY-MM-DD HH:MM:SS` exactly as chrono writes them, the clock readings
    they come from, and the check that a `YYYY-MM-DD` text names a day of
    the calendar.
  - `paging.rs`: page windows and page counts, with the laws that every row
    lies on a page and that no page past the first is empty.
  - `venta.rs`: the checks a sale passes before it is recorded (line by
    line, and per product over all lines, direct and through combos), their
    messages, the stock a combo takes from its parts, and the law that a
    checked sale never takes more of a product than its stock.
  - `auth.rs`, `usuarios.rs`: bcrypt hashes and plain-text passwords, the
    login decision, and the law that a password rehashed at login still
    logs in.
  - `inventario.rs`: product search terms, the merge of matches by name and
    by SKU (sorted by id, first match kept, and determined), deleting.
  - `combos.rs`: when a combo with items may be stored, and its item rows.
  - `historial_ventas.rs`: names shown in the sales history, today's pattern.
  - `cierres.rs`: the date of a daily closure, when one is refused, and how
    payment totals fall into the columns of the monthly list.
- `app/` — the shell: the connection pool, migrations, the schema, the
  records with their database and JSON derives, and one function per screen
  action. Sums and products of prices, which the store keeps as `f32`, are
  computed there.
- `tests/` — tests of the library on concrete values.
