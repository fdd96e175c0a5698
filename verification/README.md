# plctag

Rust bindings for `libplctag`, the library that reads and writes tags of PLCs
(EtherNet/IP and Modbus TCP), with the decisions of the bindings verified in
Verus.

- `src/` is the verified library: status codes and their texts, tag path
  building, event codes and listener bookkeeping, the outcomes of the
  library's return codes, the rules of the value derive's `tag(..)`
  attributes, the signals of asynchronous tags, the cells that hold a value
  set once, and the state of the two pools of shared tags (entries by path,
  creation outcomes, expirations, creation polling).
- `app/` holds what calls the native library or runs tasks: the native
  declarations, `Tag` and its typed values, event callbacks, debug level and
  logging, asynchronous reads and writes on tokio, and the runners of the
  pools. Every decision it makes is a call into `src/`.
- `tests/` exercises the library on concrete values.
