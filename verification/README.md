# delivery_lib

The core of a goods delivery service, written in Verus: the tree of
countries and regions, access control, package kinds and shipment
measurements, shipping rates with their zone and rate tables, product
offers, delivery addresses, and the routing of request paths. Every
function under `src/` carries a contract that Verus proves; the laws of the
library (what pruning a country tree keeps, what each role may do, what a
zone table may not hold, which paths route where, ...) are public proof
functions next to the code they speak of.

Measurement units, as stored:

- weight: g
- volume ("size"): cm³
- dimensional factor: cm³/g
- rate weights: g

Layout:

- `src/` — the verified library (`models/` for the data and its checks,
  `repos/` for what the repositories compute from the rows they read,
  `controller/` for request routing, `text.rs` for small text utilities).
- `app/` — plumbing that Verus does not see: loading the settings, the JSON
  forms of stored rows, reading the rate table's floating-point cells.
- `tests/` — tests run against the compiled library.
