# foxglove-websocket-rs

A Foxglove WebSocket server, with its protocol logic verified in Verus.

- `src/` is the verified library: the protocol messages (`messages`), the
  binary frames and their little-endian fields (`binary`), the texts of status
  messages (`text`), recognising text requests (`text_input`), the state kept
  about one client (`client_state`) and the state shared by all connections with
  every decision the server takes on a request (`foxglove_state`). Properties
  that span several requests are proved in `laws`.
- `app/` is the server around it: WebSocket connections (tokio,
  tokio-tungstenite), JSON (serde), and the `FoxgloveServerListener` trait that
  users implement.
- `tests/` runs the library on concrete values.
