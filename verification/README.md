# vortex_core

The logic of a columnar file format, verified with [Verus](https://github.com/verus-lang/verus).
Every function under `src/` has a contract. Verus proves it, except for the small functions that
call other crates: what those claim of the call is trusted. What holds of several functions together
stands beside them as a public proof function whose name begins with `law_`.

| module | what it holds |
| --- | --- |
| `dtype`, `scalar`, `ext_scalar`, `ext_scalar_key` | logical types, scalars, and scalars of extension types with their order and keys |
| `extension::datetime` | timestamps, time zones, and the cast from dates to timestamps |
| `arrays` | casts of decimal and extension arrays, takes of dictionaries, least and greatest values, views |
| `expr` | expressions, their conjuncts and their text, `CASE WHEN` |
| `list_contains` | whether a list holds a value, row by row: by hashing, by bytes, by compressed codes |
| `layout` | the tree of layouts as it is stored and in memory, the footer of a file, caches |
| `scan` | the splits of a scan, how many are held at once, and telling a scan that is stuck |
| `persistent` | files of a table: physical expressions and what they give on a row, pruning by dynamic filters, schemas, opening, splitting what is written |
| `parallelism`, `sorting`, `text` | how much is done at once; sorting; numbers as text |

`app/` is ordinary Rust around the library: locks, threads, futures, the environment, and the
types of the query engine. It asks the library what is to be done and does it.

Calls into other crates stand in small functions marked `#[verifier::external_body]`. The doc
comment of each says what its contract claims of the call.
