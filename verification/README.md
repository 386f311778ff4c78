# aptlantis_ops

The rules of the Aptlantis Ops board, verified with Verus: typed operational
objects (projects, PowerShell operators, City Hall documents) placed in the
lanes of a primary and a secondary board, their tags and tag colours, and the
tables that keep them.

- `src/text.rs`: trimming, tag cleaning, slugs and decimal numbers.
- `src/json.rs`: the JSON payload of an object.
- `src/model.rs`: the records of the board and their views; a JSON column
  whose text cannot be read is kept as that text and shows a fallback.
- `src/seed.rs`: what a new board starts with.
- `src/order.rs`, `src/rows.rs`: listing orders and a verified sort.
- `src/table.rs`: keyed tables and the three ways a row is written.
- `src/change.rs`: what each request does to the tables, over views.
- `src/store.rs`: the tables and the requests.
- `src/laws.rs`: properties that hold for every input.
- `app/`: the Tauri shell, the SQLite file and the JSON exchanged with the
  front end; not verified.
