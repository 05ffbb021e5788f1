# jsonapi_core

A JSON:API v1.1 library written in Verus: every function of the library
carries a `requires`/`ensures` contract that Verus proves.

## Layout

- `src/` — the verified library.
  - `json.rs` — the JSON value tree the library reads and writes, with its
    mathematical view (`JValue`).
  - `model/` — documents, resources, identifiers, relationships, links,
    error objects and the `jsonapi` object, each with its JSON form
    (`to_json` / `from_json`) and a proof that reading back what was
    written gives the value again.
  - `record.rs` — reading a struct-like JSON form: fields from an object
    by name, or from an array by position.
  - `registry.rs` — the lookup table of included resources and the
    recursive resolver with cycle detection.
  - `builder.rs` — the document builder (deduplication of included
    resources).
  - `query.rs`, `query_parse.rs`, `query_round_trip.rs` — query strings:
    building, parsing, and the proof that parsing gives back what was built.
  - `encoding.rs` — percent-encoding and decoding of UTF-8 text.
  - `pagination.rs` — page parameters and pagination links.
  - `fieldset.rs` — sparse fieldsets.
  - `media_type/` — media-type parsing, `Content-Type` validation, `Accept`
    negotiation, and the header round trip.
  - `validation.rs` — member-name rules.
  - `atomic.rs`, `atomic/wire.rs` — the Atomic Operations extension: `lid`
    checks and the JSON forms of requests and responses.
  - `case.rs`, `field.rs`, `links.rs`, `str_map.rs`, `text.rs`,
    `decimal.rs` — supporting pieces.
- `tests/` — tests run against the compiled library.
- `app/` — JSON text in and out through `serde_json` for the other types,
  registry lookups read into the caller's own types, and a displayable copy
  of the error type.

Calls into `heck`, `percent-encoding`, `serde` and `serde_json` go through a
few small trusted wrappers, each documented where it stands. Documents are
read from JSON text or bytes in the library itself (`Document::from_str`,
`Document::from_slice`), through `serde_json`'s parser.
