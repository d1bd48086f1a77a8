# geck

A small TCP chat service. Clients connect and announce a name with a
three-byte prefix. A line one client sends goes out to every other registered
client, in the order in which they joined: each is sent its own name and
" : ", and only the first of them also gets the text of the line. An empty
message from a registered client removes it.

- `src/` is the verified library (Verus):
  - `peer` — peer addresses as plain integers;
  - `text` — byte-prefix and substring search, UTF-8 decoding;
  - `protocol` — the announcement framing that clients send;
  - `dispatcher` — the book of named clients and the routing of messages,
    with the laws that every step keeps;
  - `keyed` — tables keyed by peer address, and the laws of storing and
    dropping entries;
  - `connections` — the table of open connections by peer address;
  - `link` — what the client and the server do after each socket read.
- `app/` holds the sockets, threads and channels: `server` (default) and
  `client` subcommands.
- `tests/` exercises the library on concrete values.
