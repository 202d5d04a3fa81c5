# jsonschema (deduced types and the `required` keyword)

A verified library, written in Verus, for two parts of a JSON Schema
validator:

- **Deduced types** (`data`, `tools`, `order`, `deduce`, `error`): the type
  that a schema describes (`DeducedType`), how two deduced types combine into
  one (`combine`), and how they are ordered (`PartialOrd`). Each type has a
  mathematical value (`TypeModel`) in which the attributes of a struct form a
  map; the contracts and laws are stated over it.
- **The `required` keyword** (`required`, `validation`, `paths`, `json`):
  compiling the keyword, checking instances against it, and the struct type
  it deduces. JSON documents are the library's own `JsonValue`, whose objects
  hold each member name once.

`app/` turns `serde_json` values into `JsonValue` and gives errors of
deduction `Display` and `std::error::Error`.
