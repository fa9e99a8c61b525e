# orderbook_aggregator

Merges the order books that exchanges stream over websockets into one
summary per currency pair (best ten bids, best ten asks, spread) and hands
it to subscribers; a gRPC client and a text UI client consume the stream.

Layout:

- `src/` — the verified library (Verus): currency pairs and exchange names,
  the ranking of prices (held as the bit patterns of binary64 numbers),
  level ordering and summaries, the aggregator's subscription state and the
  summaries it owes, exchange message handling, the text client's command
  language, tabs and log, and the small decisions of the two clients.
- `tests/` — tests of the library on concrete values.
- `app/` — the programs around it: `main`, the async server loop and the
  sending of summaries, websocket and gRPC plumbing, terminal drawing, and
  what is floating point: reading numbers from the exchanges' text, the
  spread, and the values on the wire.
