# gt-core

Graph adjacency storage, graph views, property maps and deterministic parallel
primitives, written in Verus: every function of the library states what it does
in `requires` and `ensures`, and Verus proves it.

## Layout

- `src/ids.rs`, `src/bound.rs`, `src/dir.rs`, `src/error.rs`: identifiers, index
  bounds, directedness and errors.
- `src/walk.rs`, `src/graph.rs`: iteration over finite runs and the graph traits.
- `src/adj/`: the adjacency list. `topology.rs` is the mathematical graph that the
  contracts speak of, `consistency.rs` the invariant that ties the edge table to
  the blocks, `census.rs` what the audit finds, `splicing.rs` what linking and
  unlinking an edge keep, `laws.rs` what else holds across operations.
- `src/view/`: the reversed, undirected and filtered views, and their laws.
- `src/prop/`: the value universe, conversion between its members, dense, constant,
  identity and erased property maps, and dispatch from a runtime kind.
- `src/par/`: work plans, seeds, reductions, lane sums and row locks.
- `tests/`: the library as its callers see it.
- `app/`: what surrounds the library: error messages, floating-point text and the
  objects of an embedded interpreter.

## What is trusted

Calls into `rayon`, `rand_chacha`, `rustc_hash` and a few functions of std stand
behind small functions marked `#[verifier::external_body]`. The comment above each
names the call and says what is claimed of it.
