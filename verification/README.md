# VeySRS

VeySRS is a small web server: HTTP/1.1 and HTTP/2, TLS with per-host certificates,
virtual hosts, static files with directory rules (VeyRule), reverse proxying with
WebSocket relays, and FastCGI.

What the server decides is a library that Verus verifies. What it touches, that is
sockets, files, threads and signals, is a thin program around it.

## Layout

- `src/config/` reads rule files, merges the rules of a chain of directories and
  remembers them.
- `src/router/` goes from a request to a response: paths, ranges, dates, conditional
  requests, directory listings, virtual hosts.
- `src/server/` has the protocols: HTTP/1.1 messages and sessions, HTTP/2 frames, header
  blocks, flow control and scheduling, FastCGI records, upstream responses, WebSocket
  upgrades and relays, health, pooling, limits, metrics and logging.
- `src/cli.rs` reads the command line.
- `tests/` runs the library on given values.
- `app/` is the program.

## Reading the contracts

Texts are sequences of characters and bodies are sequences of bytes. Each type with
contents worth talking about has a view, and each function says in terms of the views
what it returns and what it changes. Functions whose names begin with `law_` state what
holds across several functions.

Work that waits for the outside is cut into steps: the library is handed what happened
(bytes, the end of a stream, a moment in time) and answers with what to do next. The
program only carries out these steps.

## Trusted code

Compression (`flate2`), base64, SHA-1, PEM files and key checks (`rustls_pemfile`,
`rustls`) are called through small wrappers, in `src/server/gzip.rs`,
`src/server/websocket.rs` and `src/server/tls.rs`. A few functions of the standard library
have wrappers too: `src/bytes.rs`, `src/text.rs`, `src/server/http.rs`,
`src/server/cgi_request.rs` and `src/server/gzip.rs`. The comment above each wrapper says what is taken on trust.
