# doc_orchestrator

A local-first document orchestrator: documents move through a lifecycle
(draft, active, superseded, archived), carry explicit relationships
(supersedes, references), keep their metadata and lineage in sidecar files
beside their content (the database is rebuilt from them when a workspace is
opened), and are found again by full-text search and keyword similarity.

- `src/` is the verified library (Verus): the document model and lifecycle,
  relationships, sidecar metadata and its cache, workspace paths, file-event
  filtering and debouncing, keyword statistics for similarity, and the
  decisions taken by the commands. Calls into `sha2`, `hex`, `uuid` and a
  few standard-library functions (the system clock among them) stand behind
  small trusted wrappers whose contracts are stated in their doc comments.
  Random bytes for new identifiers are drawn by the program and handed in.
- `tests/` exercises the library on concrete values.
- `app/` is the desktop program around it: the Tauri commands, the embedded
  SurrealDB store, the Tantivy index, the file-system watcher, file I/O and
  the floating-point similarity arithmetic, and `chrono` dates in the
  serialised forms.
