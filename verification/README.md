# can_receiver

A CAN receiver and decoder: it reads frames from a CAN adapter, decodes them
with a DBC database into named signals, maps the codes of error frames to
readable names from a CSV table, and streams the results to WebSocket clients.

The decoding logic, the parsers and the server's decisions form a library whose
behaviour is stated in `requires` / `ensures` contracts and proved with Verus.

## Layout

- `src/signal.rs` – extraction of a signal's raw bits (Intel and Motorola byte
  order) and their two's complement reading.
- `src/frame.rs` – CAN identifiers and frames, and the `u32` key of an identifier.
- `src/dbc.rs` – the message database (parsed by `can_dbc`), the id index, error
  frames, and decoding of a whole frame.
- `src/error_map.rs` – the `code,name` CSV table of error codes.
- `src/config.rs` – the `config.txt` format: reading, defaults and saving.
- `src/dbc_names.rs` – normalisation of `BO_` message names in a DBC text.
- `src/websocket.rs` – subscriptions, raw-frame keys and transmit requests.
- `src/text.rs` – the string operations the parsers are built from.
- `app/` – the program: files, logging, the adapters, the WebSocket server
  and the floating-point scaling of decoded values.
- `tests/` – tests of the library.
