# Orbit

Orbit keeps folders on several devices in step, peer to peer and encrypted. The library in `src/`
decides everything that can be decided on plain values, and Verus proves what it states; the
program in `app/` reads and writes files, keeps the catalog in SQLite and talks to peers over QUIC.

## Layout of `src/`

| Modules | What they hold |
| --- | --- |
| `bytes`, `text`, `hexadecimal`, `table`, `order`, `outcome` | Byte strings, text, keyed rows, sorting, and how results are compared with what is specified |
| `ids`, `path`, `version`, `record`, `conflict`, `conflict_name` | Identifiers, portable paths, version vectors, change records, reconciliation and the names of conflict copies |
| `crypto`, `envelope`, `keys`, `identity` | The cryptographic primitives, encrypted objects, group keys and device identities |
| `content` | Content-defined chunking and transfer plans |
| `proto`, `fields`, `message`, `wire`, `oneof`, `manifest` | Protocol Buffers, the messages and the canonical form of records |
| `protocol`, `handshake`, `session`, `frame`, `transfer`, `batch` | The limits, the negotiation, the mutual authentication, and the messages that are accepted |
| `catalog`, `store`, `history`, `store_laws` | The catalog of objects, members, requests, heads and changes |
| `opening`, `exchange`, `exchange_laws` | Sealed records, and batches of changes that are sent and admitted |
| `chance`, `loading`, `conflict_record`, `apply`, `applier`, `apply_laws` | Applying incoming changes step by step, what a step asks chance for, and taking up what was left undone |
| `placement`, `discovery`, `scan`, `scan_laws`, `content_laws` | What stands in the folder, what has changed there, what a whole scan does, and what is read back of it |
| `transport`, `pull`, `serve`, `footprint`, `sync_laws` | The two sides of a session, which objects each step looks at, and how the sides fit together |
| `daemon`, `setup`, `cycle`, `client`, `joining`, `workspace`, `switching` | Configuration, how a device is set up, the cycle of the daemon, invitations, what the client shows, and how it joins a workspace and moves to another |

Every public function states what it returns and what it changes, over the views of the types. The
functions whose names begin with `law_` state what relates several functions.

## What is trusted

Outside calls stand behind small wrappers whose contracts are believed: those of `crypto`
(BLAKE3, HKDF, XChaCha20-Poly1305, Ed25519, randomness), `content` (FastCDC), `hexadecimal`,
`ids` (UUIDs), `path` (Unicode normalization and case folding) and `text` (UTF-8). The comment
above each wrapper says what is claimed of the outside function.
