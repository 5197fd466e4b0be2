# monocore

Verified building blocks of a micro-VM runtime: in-memory, native and overlay file
systems; an NFS front end for them; content-addressed block stores with content-defined
chunking; and the small state machines that supervise a child process and rotate its log.

The library in `src/` is written in Verus. Every public function states what it returns
and changes in its `requires`/`ensures`, over mathematical models (`Seq`, `Map`, `Set`)
of its data, and Verus proves the code against those contracts. Public `proof fn`s named
`law_*` state properties that span several calls, such as reading back what was written,
what a rename leaves in place, or that decoding an encoded message gives it back.

Layout:

- `src/vfs/`: path segments, metadata, the memory, native and overlay file systems, and
  the translation of file-system state into NFSv3 attributes.
- `src/nfs/`: XDR encoding, RPC and NFSv4 compound messages, and the server's client and
  lease state.
- `src/store/`: CIDs and codecs, the FastCDC and QuickCDC chunkers, memory, flat-file,
  dual and buffered stores, and the state machine of a collection run over the flat store.
- `src/utils/`: path normalization, supervisor and log-rotation state machines, directory
  tree listings.
- `src/raft.rs`, `src/text.rs`: Raft node state and string helpers.
- `app/`: the asynchronous servers and I/O loops around the library; they perform the
  actions that the library's state machines decide.
- `tests/`: tests run against the compiled library with the real outside crates.

Calls into outside crates (`typed-path`, `hex`, `cid`, `intaglio`, `chrono`, ...) go through
small trusted wrappers whose contracts are documented where they are declared.
