# modsim

A Modbus slave simulator whose core is written in Verus and verified: the
domain model (device types, devices, contexts), the register/word encoding,
the request engine with its configurable faulty behaviour, the wire formats
(PDU, RTU frames with CRC, MBAP headers), the Varmeco CSV importer, the
traffic annotations, and the decisions of the transport supervisor.

Layout:

- `src/` — the verified library. Each module states
  its contracts over spec functions on `Seq`, `Map` and integers; the laws
  that relate several operations are public proof functions (`law_*`).
- `tests/` — ordinary Rust tests of the library on concrete values.
- `app/` — the server around the library: HTTP and GraphQL, the Modbus TCP
  and RTU listeners, persistence as JSON files, virtual serial ports.
