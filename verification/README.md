# cubert

A paper/live trading engine. This crate splits it in two:

- `src/` is the verified library. It holds the engine's decisions and
  bookkeeping with contracts that Verus proves: which symbols are tracked,
  how warm-up requests are grouped and whose bars go where, which strategies
  a reload keeps or rebuilds, which strategies a live bar is fed to, the
  order in which a signal is handled, the paper broker's fill sequence and
  order ids, the daily trade budget, the momentum price window, log-line and
  file-name text, URLs, error texts, and the JSON form of symbol lists.
- `app/` is the program around it: configuration, HTTP calls to the data and
  broker APIs, SQLite storage, the tokio tick loop, and the strategies' and
  risk manager's floating-point arithmetic.

`tests/` runs the library on concrete values.
