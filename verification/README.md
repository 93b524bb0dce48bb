# Liquid cache

A cache of columnar batches read from Parquet files, with its client and benchmarks. The library
under `src/` is written in Verus: what its functions do is stated in their contracts and proved.
`app/` is ordinary Rust around it: files, the network, threads and the query engine.

| Module | What it holds |
| --- | --- |
| `ids` | identifiers of cached batches, and their files on disk |
| `modes`, `schema`, `arrays` | how data is held, and how column types change on the way |
| `bits`, `selection` | row selections, packed and as runs, and the narrowing of one by another |
| `dictionary` | dictionary-encoded columns without duplicate values |
| `policies` | which entry has to go when the cache is full |
| `tracer` | the record of accesses |
| `column`, `cache` | cached columns, row groups and files, and predicates evaluated on them |
| `reader`, `opener` | reading a row group batch by batch, and opening a file |
| `client`, `metrics` | registration of plans with a server, and the stream of their batches |
| `bench`, `tpch`, `behavior` | benchmarks |
| `text` | numbers in decimal, and cutting and joining of texts |

Public proof functions state what holds of the library as a whole: for example that narrowing
selections is associative, that predicates evaluated one after the other keep exactly the rows for
which all of them hold, that the least recently used policy evicts in the order of insertion, that no
two entries share a file, or that decoding an encoded column gives it back.

Calls into `arrow`, `parquet`, `datafusion`, `ahash`, `url`, `uuid` and parts of the standard library
stand behind declarations whose contracts are believed. Each has a doc comment that names the outside
function and says what is claimed of it.
