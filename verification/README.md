# Market data service

A service that turns token trades into candlestick bars. Clients ask for the bars of a
token over HTTP, and follow the trades over WebSocket.

- `src/` is the library, written in Verus and verified: reading intervals (`interval`),
  comparing prices (`double`), bars (`kline`) and series of them (`series`), the bars of
  the current buckets (`active`), requests (`query`), the state that they are answered
  from (`state`), the simulated market (`simulator`) and the live feed (`feed`). `laws`
  holds what is proved of them together.
- `app/` is the program around it: the endpoints, the clock, and floating-point arithmetic.
- `tests/` runs the library.

Prices and amounts are double-precision numbers. The library holds them as bit patterns,
which it compares but does not add. The volume of a bar is therefore the list of its
amounts, and `app/` adds them up.

## Endpoints

- `GET /klines/:token_id?interval=5m`: the bars of a token, in the order of their starts.
  The interval is a number and a unit (`s`, `m`, `h` or `d`), and one minute where none is
  given. What is not such an interval, or has no length, is answered with a text that says
  so. The last bar of one and five minutes follows the trades as they are made.
- `GET /ws`: the trades, as they are made, over WebSocket. A client that falls behind misses the
  oldest ones and goes on with the rest.
