# netfyr_state

The core data model for netfyr network device state, with its YAML codec,
written in Verus and proved against its contracts.

A `State` is one source's contribution to one device: a device type, a
selector (`Match`), the configuration fields being contributed (an ordered
`indexmap::IndexMap<String, Value>`), and runtime bookkeeping (source,
priority, metadata). YAML text is read into states and states are written
back in two formats: the query format (no `match:` section) and the policy
format (with one).

## Layout

- `src/` — the verified library.
  - `match_spec.rs`, `source.rs`, `state.rs`, `value.rs`, `error.rs`: the model.
  - `fields.rs`: the field table of a state, `indexmap::IndexMap` behind
    trusted wrappers.
  - `ip.rs`: IP addresses, their canonical text, and the IPv4-with-prefix parser.
  - `schema.rs`: the embedded schema registry that decides how strings decode.
  - `yaml_node.rs`: the YAML trees, and the trusted calls into `serde_yaml`.
  - `yaml.rs`: reading and writing the two formats, specified over the trees.
  - `reading.rs`: what every read guarantees (one state per list element,
    no value retyped where no schema asks for it, integers read by sign).
  - `roundtrip.rs`: the proofs that written states read back, and that
    writing what was read gives the same text.
  - `text.rs`: string helpers and decimal numerals.
- `tests/`: tests run against the compiled library with the real outside crates.
- `app/`: conversions to and from `std::net::IpAddr`, and `Display` /
  `std::error::Error` wrappers printing the library's texts.

The trusted part of the library is small and marked: the wrappers around
calls into `indexmap`, `serde_yaml`, `uuid`, `std::time` and `String::push`, and the
declarations of their types. Everything else in `src/` is proved.
