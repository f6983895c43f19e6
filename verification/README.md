# robond

A verified library for trading Russian bonds: backtests of trading
strategies over historical market data, the strategies themselves, and the
computations of a portfolio service (valuation, broker answers, request
checks, token encryption).

The library in `src/` is written in Verus and verified by it: each public
operation states its result in a contract that Verus proves, with private
helpers and spec functions beneath them.  Decimal arithmetic is delegated to
`rust_decimal`, encryption to `aes-gcm` and `base64`, date formatting to
`chrono`, and upper-casing and UTF-8 decoding to `std`; what is assumed of
them is stated in the trusted wrappers that call them (marked
`#[verifier::external_body]`).  The one other assumption is about
strategies written outside the library: the `Strategy` trait states what
`decide_trades` returns, and only the library's own strategies are proved
to meet it.

Modules:

- `decimal` — decimals as mantissa and scale, with `rust_decimal` arithmetic;
- `keyed_map` — maps that keep their keys in insertion order;
- `model` — portfolios, bonds, payments and market orders;
- `simulator` — the market simulator: orders, payments, redemptions,
  write-offs and valuation;
- `strategy`, `strategies`, `diversified_short_duration`, `high_yield_short`,
  `yield_maximizer` — the strategy interface and the strategies;
- `backtest` — bond information from database rows and the steps of a
  backtest day;
- `quotation` — the broker's quotations and money values;
- `valuation`, `api`, `bond_card` — the answers of the portfolio service;
- `crypto`, `config`, `text`, `scheduler`, `basics` — token encryption,
  settings, text formatting, request scheduling and small helpers.

`app/` holds the backtest program: it reads the database, groups the candles
by day and hands the library's day loop a way to compute yields (internal
rates of return, in floating point).  `tests/` holds the tests.
