# trading_data

Market-data primitives and the incremental graph engine that folds them, with their behaviour stated as
contracts and proved by Verus.

- `src/` is the library. Every item of it is verified; what it takes from `jiff` and from the standard
  library without proof stands in `src/instant.rs`, `src/text.rs`, `src/tag.rs`, `src/shape.rs`
  and `src/exchange.rs`, each behind a function whose contract says what is taken.
- The laws of the library, what holds across its functions, are public proof functions: those of the book
  in `src/book_laws.rs`, `src/chunk_laws.rs` and `src/book_runs.rs`, of retention in `src/rows_laws.rs`, of
  the kernels in `src/kernel_laws.rs`, of the sweep in `src/sweep_laws.rs`, of the algebra in
  `src/algebra_laws.rs`, `src/simple_laws.rs`, `src/slope_laws.rs` and `src/gradient.rs`, of the index in
  `src/rsi_laws.rs`, and the others beside the functions they speak of.
- `tests/` runs the library.
- `app/` is the demo around it: an archive is downloaded, read and swept through bars and an index.
