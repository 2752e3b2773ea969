# lighter_bot

Quoting strategies and account guards of a perpetuals market maker, verified
with Verus.

- `src/binary64` holds IEEE 754 binary64 numbers as integers: arithmetic,
  rounding, ordering, reading and printing, each proved against its exact value,
  and bounds on how far rounding moves a result.
- `src/strategy` holds the quoting engines, the inventory and markout gates, and
  the factory that turns configurations and parameter lists into strategies.
- `src/hft` decides which markets are watched and quoted, and reads the external
  alpha feed.
- `src/lighter`, `src/dashboard`, `src/risk` and `src/backtest.rs` read account
  payloads, keep profit figures consistent, and weigh orders against their costs.
- `app` connects the library to configuration files, the wall clock, the
  environment and the websocket feed.

Functions whose name starts with `law_` state what holds of the library as a
whole.
