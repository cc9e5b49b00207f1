# sparrow

A strip-packing optimiser (nesting of irregular 2D items in a strip of fixed
height and minimal width), built on the `jagua-rs` collision detection engine.

## Layout

- `src/` — the verified library (Verus). It holds the integer logic of the
  optimiser, each function with a contract, and the laws that tie them:
  - `overlap::pair_matrix` — triangular storage of pair-wise entries
    (`calc_idx`, `OTPairMatrix`): one cell per unordered pair, proved a
    bijection between pairs and cells;
  - `overlap::matrix` — dense square matrix with row/column reset;
  - `overlap::jump_cooldown` — per-item jump cooldown bookkeeping;
  - `overlap::item_index` — which matrix row belongs to which placed item,
    kept in slotmap's `SecondaryMap`: indices stay below the matrix size and
    distinct, and a moved item keeps its row;
  - `sample::coord_descent` — the eight search directions of coordinate
    descent and their neighbourhoods;
  - `sample::search` — sampling budgets;
  - `eval::custom_cde` — the bit-reversed order in which polygon edges are
    visited during collision collection, proved to be a permutation, with
    the number of bits and the work of each step bounded;
  - `optimizer::separator` — the counters (strikes, iterations without
    improvement) that steer separation and guided local search with a tabu
    list;
  - `optimizer::worker` — work statistics of separation;
  - `optimizer::solution_pool` — pool of unseparated layouts, always sorted
    by loss;
  - `opt::tabu` — bounded list of recently visited solutions; a solution is
    tabu right after it was pushed.
- `app/` — the program: command line, input and output, and all the
  floating-point geometry and loss computations (overlap proxies, the
  overlap tracker, samplers, evaluators, the exploration and compression
  phases), which call into the library for the parts above.
- `tests/` — tests of the library on concrete values.
