# ce-grid

N-dimensional data comparison spaces over the CE mesh, with a verified core.

A **space** is a sparse coordinate system with any number of named dimensions. A
**cell** is a value, or a typed link to data anywhere on the mesh, addressed by a
coordinate tuple; a partial tuple spans the subspace of every dimension it leaves
open. Every space carries a `representation` dimension: source data stands on the
`raw` plane, and **derivation rules** project it onto other planes by way of
converters, memoized by a hash of (value, converter, parameters). Every mutation is a
stamped op. Replicas that see the same ops reach the same state, in whatever order and
however often the ops arrive, as long as a stamp stands for one op: the highest stamp
wins a cell or a rule, the lowest gives a dimension its kind and a coordinate its place,
and an op that comes before its space or its dimension waits for it.

## Layout

- `src/` is the library, verified with Verus.
  - `space`, `proto`, `materialize`, `service`, `cli`: the model, the request surface,
    derivation planning, the steps of an instance, and the command line.
  - `origin`, `sorted_map`, `text`, `json`, `encode`, `digest`: what they are built on.
    `json`, `digest` and one function of `service` call `serde_json`, `sha2`, `hex` and
    `std` through wrappers whose contracts are trusted; their doc comments say what for.
  - `addressing`, `convergence`, `memo`, `reading`, `rerun`, `serving`, `spelling`: the
    laws, each a `law_*` proof function.
- `tests/` runs the library.
- `app/` is the program: wire and disk formats, the mesh, and `main`.

## Steps

The library does no I/O. `Service::handle` returns a `Step` that says what to do next:
reply, save a snapshot, call a converter, or ask the analysis service. The program
does it and hands the outcome back, until a step is a reply.

## Wire contract (topic `grid/ctl`, service `ce.grid`)

Requests are JSON tagged on `cmd`; responses are tagged on `status`; values are tagged
on `kind` (`text`, `number`, `bool`, `timestamp`, `json`, `vector`, `ref`). Reads are
open to every caller; everything else is taken only from the owning node.
