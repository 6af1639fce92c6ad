# cic-primitive-engine (verified reader)

Strict reading of a YAML composition into an order-preserving value tree.

- `src/error.rs`, `src/code.rs`, `src/rule.rs`: stages, rejections, codes, rule identifiers.
- `src/value.rs`: `Value`, `Mapping` and the lookup/insert laws.
- `src/scan.rs`: the event scan that refuses anchors, aliases and duplicate keys before a tree exists.
- `src/reader.rs`: `parse`, document folding and node conversion, with their laws.
- `src/yaml.rs`: the trusted boundary to `saphyr` and `saphyr-parser`.
- `src/text.rs`: decimal renderings.
- `app/main.rs`: the command line front end.
