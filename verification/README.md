# iscsi-lib

An iSCSI initiator whose protocol and block-device logic is verified with Verus.

- `src/` is the library. It decides and computes: PDUs and their framing, login
  and negotiation, sessions and task tags, SCSI commands, the command pipeline,
  keepalive and recovery queues, write coalescing, the chunk cache and its
  readahead, the view of a LUN as a file, and first-use formatting. Every
  function states what it returns or changes; public proof functions state what
  holds across functions.
- `app/` is the program around it: sockets, timers, threads, the FUSE mount, the
  command line and the configuration file. It performs what the library decides
  and hands back what came of it.
- `tests/` runs the library on concrete values.

What the library takes on trust is marked where it stands: the byte buffers of
the `bytes` crate (`src/buffer.rs`), CRC32C (`src/iscsi/digest.rs`), the command
blocks of `iscsi_client_rs` (`src/iscsi_backend.rs`), and a few functions of the
standard library (`src/clock.rs`, `src/iscsi/text.rs`, `src/auto_format.rs`).
