# protoduck

Reading protobuf messages stored in database columns: schemas are registered
from `.proto` texts or compiled descriptor sets, messages are decoded against
them and rendered as JSON, and single fields are read by paths such as
`orders[0].items[1].name` or `metadata["key"]`.

The library under `src/` is verified with Verus:

- `path` — the field path syntax, parsed into parts.
- `schema`, `value` — the model of message types and decoded values that
  the rendering and path logic work on; `reflect` reads `prost-reflect`
  descriptors and messages into it.
- `type_mapping` — JSON and text renderings, and following a path through a
  message.
- `encoding`, `text` — JSON text, base64 and decimal texts.
- `descriptor_pool` — the registry of schemas (`protox` compiles `.proto`
  texts, `prost-reflect` holds the descriptors).
- `functions` — what each SQL function computes for one row.

`app/` registers the SQL functions with DuckDB and moves rows between Arrow
columns and the library.
