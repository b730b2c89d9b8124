# zenoh_mcp

A verified library behind a small stdio MCP server with Zenoh debugging tools.

- `src/` (Verus): the ROS type and readable form of `rmw_zenoh` key expressions,
  the hex preview of opaque payloads, the decoding pipeline (ROS message,
  undecoded preview, JSON, text, binary preview), the server's limits and the
  state of a sample collection, and the tally of distinct keys. Laws about keys,
  the preview, the message-kind table and the tally are proof functions there.
- `app/` (plain Rust): the MCP server on `rmcp`, the Zenoh sessions, the CDR
  decoders of the ROS message structs (serde derives, floating-point fields),
  and the JSON renderings of the library's values.
- `tests/`: tests of the library on concrete values.

Notes on the design:

- The original counts distinct keys in a `BTreeMap<String, (u64, Option<String>)>`.
  Here `KeyTally` keeps a `Vec` sorted by key, with the invariant that keys are
  strictly ascending in the order of `String`'s `Ord` (`chars_lt`), and proves that
  each key appears once with its sample count and first ROS type. The `BTreeMap`
  form was tried: vstd's specifications of `BTreeMap` hold only under
  `obeys_cmp::<Key>()`, which vstd does not establish for `String`, so Verus
  could not prove even that a map has one entry after one `insert` of a
  `String` key, and stating the property as an assumption is not allowed here.
- Adding a decoded message type takes a struct and a match arm in
  `app/messages.rs`, as before, plus a `MessageKind` variant and its entry in
  the name table of `src/decode.rs` (`ros_name_of`, `kind_of_ros`, `message_kind`).
- `Collector` and `KeyTally` state their invariants as an open `wf` in the
  contracts, so that the laws they keep (never more items than the limit; keys
  ascending, counts summing to the total) are visible to callers.
