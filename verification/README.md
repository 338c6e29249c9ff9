# burn_sparse

Sparse matrices and sparsity masks over plain values, verified with Verus.

- `src/sparse`: storage formats (mask, CSR, CSC, COO, block CSR, N:M),
  structural validation, conversions between formats, and sparsity masks.
- `src/methods`: mask rewiring used by the pruning methods and the schedule
  of dynamic mask updates.
- `src/kernel`, `src/backend`: what kernels and backends support.
- `src/experimental/sparseram`: tiered storage of sparse weights — lifecycle
  modes, residency engines, block decomposition, pruned-value storage and
  the on-disk entry layout.
- `app/`: the burn-tensor front end (scoring of the pruning methods, float
  kernels and metrics, serde and error-display types, memory-mapped files).
