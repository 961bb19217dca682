# ue_serial_port

Serial-port communication core for a game-engine plugin, written in Verus.

- `src/` is the verified library: error codes (`error`), protocol
  configuration (`types`), the capped receive buffer (`buffer`), packet
  framing, checksums and escaping (`protocol`), packet handling on a plain
  byte buffer (`stream`), sensor readings from JSON text (`json`), port-level
  decisions (`session`), point-count parameters (`sensor_config`) and byte
  helpers (`bytes`).
- `app/` is the C interface: port I/O through the `serialport` crate,
  thread-safe port contexts, C data layouts, and the conversion of sensor
  coordinate texts into floating-point numbers.
- `tests/` exercises the library on concrete values.
