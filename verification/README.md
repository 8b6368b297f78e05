# arbitrage

A triangular-arbitrage signal scanner. It keeps local order books from Binance
depth data, walks configured triangles over them, and tells which of them would
have earned something, after fees and within the rules of the exchange. It places
no orders.

- `src/` is the library, verified with Verus: decimal numbers, order books,
  triangle evaluation, triangle generation, the recording and its check, the
  paper-trade simulation, the reports, and the reading of arguments.
- `app/` is the program around it: sockets, files, printing, and the
  floating-point arithmetic of the signals, the simulation and the reports.
- `tests/` runs the library on concrete values.

Decimal arithmetic is that of the `rust_decimal` crate. `src/decimal.rs` says
what the library relies on: exact results where they fit, and named results where
the crate rounds.

Subcommands: `analyze`, `simulate`, `pnl-report`, `replay-check`,
`capture-replay`, `generate-config`. Without one the live service starts from
`config.yaml`.
