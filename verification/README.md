# mononoke_import

A verified library for the decisions made while importing a revlog-backed
Mercurial repository into Mononoke, for the parameters of a Git packfile
request, and for the check of the Git-backed tree store.

- `src/parent_order.rs`: the file that fixes the order of parents (lines, fields, the map).
- `src/import_options.rs`: command-line checks, defaults and the steps after an import.
- `src/generation.rs`: the counter of the highest imported generation number.
- `src/manifold.rs`: the next revision to import and its decimal payload.
- `src/protocol.rs`: `RequestedRefs`, `TagInclusion`, `DeltaInclusion`, `PackItemStreamRequest`.
- `src/gitstore.rs`: the check that a written tree landed under its id.
- `src/text.rs`, `src/ids.rs`: splitting text, UTF-8 input, hash ids.
- `app/`: the `blobimport` command, the packfile response stream and the store trait impls.
