# xmip_core_transport_mysql

MySQL and MariaDB transport: one row of a query is one Stream, a send is one
INSERT; the client/server protocol with native password authentication. The
library is written and proved in Verus.

## Layout

- `src/wire.rs` - packets, and the integers and strings in them
- `src/handshake.rs`, `src/sha1.rs` - the greeting, the response and the native
  password
- `src/result.rs` - OK, ERR and EOF, column definitions and rows
- `src/client.rs` - a login and a query, packet by packet, and quoting
- `src/session.rs` - the far end: a login checked, queries answered
- `src/insert.rs`, `src/scan.rs` - the INSERT of one column, taken apart
- `src/hex.rs`, `src/text.rs` - binary Streams as hexadecimal literals; text
- `src/lib.rs` - where a send goes, what it writes, and what a receive takes
- `src/laws.rs` - what holds across the modules: what one end writes, the other
  reads
- `app/` - the sockets and the loops that move packets, and the transport
  capability

The library reads and writes nothing. A client and a session take the packets
that arrived and give the bytes to send.

## What is taken on trust

Of the standard library: `String::push`, `String::from_utf8_lossy`,
`str::from_utf8`, `char::is_alphanumeric`, and `{:?}` of text. Each is declared
with its contract in `src/text.rs` or `src/scan.rs`.
