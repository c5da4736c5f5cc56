# virting_ublk_drbd_demo

A DRBD-like replicated block device: a Primary daemon commits each write
locally, forwards it to a Secondary, and acknowledges only once the peer has
acknowledged; blocks whose replication failed are tracked in a persisted dirty
bitmap and replayed by a resync.

The library under `src/` is verified with Verus:

- `protocol` — the 40-byte big-endian frame header and payload: encoding,
  decoding and the round-trip laws between them.
- `bitmap` — the dirty-block bitmap, its range operations and its saved form.
- `backend` — range checks and the FNV-1a checksum of the backing file.
- `client` — the frames a client sends and how it reads the replies.
- `server` — the handshake, request dispatch, replies, dirty tracking around
  replication, and the order and effect of a resync.
- `cli` — flag and command parsing, decimal integers and hex output.
- `text` — decimal text of integers for the daemons' messages.

`app/` holds the sockets, files, threads and the command line that drive the
library.
