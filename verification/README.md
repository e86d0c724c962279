# Packet Browser

A web browser for packet radio. The server, behind a BPQ node, loads pages with a
headless browser and sends them over the air as compressed, printable text. The
client reaches the node through a modem and shows the pages in the operator's own
browser.

- `src/` is the library, verified with Verus: the frames and texts on the wire,
  the handshake and its consent, the modems' protocols, the page cache, the
  rewriting of pages, the pages of the client, and the server's filter, sessions,
  log and settings. It neither reads nor sends: each part takes what happened and
  says what is to be done.
  - `shared/` is what both ends use: requests, responses, compression.
  - `client/` is the operator's side.
  - `server/` is the node's side.
  - `handshake.rs` and `exchange.rs` state how the two ends meet: how a station
    gets in, and how a page comes through.
- `app/` is the program around it: sockets, files, the database, HTTP, the browser.
  It runs the client, or the server with `server` as the first argument.
- `tests/` runs the library on concrete values.

What an outside crate or the standard library does is stated at the functions
that call it, each marked `external_body`, and is not proved.
