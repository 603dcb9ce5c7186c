# tantivy_indexer

The segment bookkeeping of an inverted index, written and proved in Verus.

A writer takes documents and deletes in. Documents are written to immutable segments; the segments
that the durable metadata lists are committed, the others wait for the next commit. A prepared
commit can be searched before it is durable, and is then carried out or aborted.

- `src/` is the library. Its functions state what they return or change. How long a commit
  takes is up to the clock: which of the two measured times is reported as what is stated of
  `CommitStats::report`. The functions named `law_..` state what holds of several functions
  together: above all that a searcher over a prepared commit sees just what becomes durable if the
  commit is carried out.
- `tests/` runs the library on concrete values.
- `app/` is ordinary Rust around it: the lock that shares a segment manager between threads, the
  loops that open and close the outputs of a segment, and the log.
