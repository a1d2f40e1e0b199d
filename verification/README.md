# protovcs

A small decentralized version control system: content-addressed objects (blobs,
trees, commits), a staging index, `status` and `log`, and a network of nodes with
Ed25519 identities that join through a signed handshake, vote on roles, manage
permissions and push signed files.

The library under `src/` holds the logic, verified with Verus:

- `strmap`: an insertion-ordered string-keyed map with distinct keys, viewed as a `Map`.
- `text`, `order`, `select`: string helpers (trim, decimal, prefixes), the byte order of
  keys, and order-preserving selection used by the specifications.
- `codec`: hex, JSON string literals, SHA-256 content hashes.
- `objects`: index, trees (hashed over their entries sorted by path), commits (hashed
  over their canonical JSON), loose-object locations.
- `status`: staged, unstaged and untracked changes between HEAD, index and working tree,
  and the report `status` prints.
- `log`: HEAD resolution and the first-parent history walk.
- `crypto`, `network`: a node's Ed25519 identity (public key and signatures as hex), key
  and signature decoding, and the registry's decisions for
  handshake, join, vote, shutdown, permission changes and pushes.
- `paths`: path text clean-up.

`app/` is the command-line program around it: file and network I/O, the HTTP server,
serde forms of the library's types, the clock, and the random bytes of a new key.
