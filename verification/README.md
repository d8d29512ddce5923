# makcu

Verified protocol core for MAKCU USB HID interceptor devices: the serial
command vocabulary, the stream parser that separates button-event frames from
command responses, response classification, command batching and
software-stepped movement, each with a Verus contract.

Layout:

- `src/protocol/` — command formatting into a 64-byte buffer (`builder`), the
  fixed command strings (`constants`), the stream parser and response
  classifier (`parser`), and byte/text helpers (`text`).
- `src/device.rs` — command texts and response interpretation of the blocking
  device API.
- `src/batch.rs` — batch builders and the plan that coalesces native commands
  into single writes.
- `src/extras.rs` — splitting a relative move into steps that add up to it,
  and the timed press/move/release/sleep actions of clicks, click sequences,
  smooth moves, move patterns and drags.
- `src/info.rs`, `src/config.rs`, `src/error.rs` — query-value helpers,
  connection settings and the error type of the channel-based API.
- `app/` — the blocking serial-port `Device` (serialport, thiserror), which
  performs the I/O around the verified functions and carries out the
  timed actions.
