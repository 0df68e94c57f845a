# hft_sim

A tick-synchronised high-frequency trading simulator: a central exchange with
a price-indexed limit order book, noise traders, fundamentalist traders and a
corporation whose true value follows a random walk.

- `src/` is the verified library: the order book and its matching engine
  (`exchange`, `matching`), the balances and cancel flags that orders refer to
  (`ledger`), the tick barrier's bookkeeping (`utils`), the traders' and the
  corporation's decision rules (`market`, `corporation`), and the laws proved
  of the matching engine (`laws`).
- `app/` runs the simulation: one thread per participant, a channel for the
  orders, a lock and condition variable around the tick barrier, the
  floating-point samplers, and the `TICK:` lines on standard output. It runs
  in barrier-synchronised ticks by default, in real time with `--time`, and
  prints the `TICK:` lines for the visualizer only with `--gui`.
