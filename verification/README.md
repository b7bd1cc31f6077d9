# moni-strategy-beta

The decisions of a complete-set rebalancer for Polymarket crypto markets that end
within a day, verified with Verus.

A pair of complementary outcome tokens is worth one unit of collateral. The
strategy follows the books of both tokens, looks for pairs that cost less than
that to buy, or bring more when sold, after fees and reserves, and signals them to
an engine that executes them. It holds no credentials and places no orders.

- `src/` is the library. Each public function states in its contract what it
  returns or changes; functions named `law_..` state what holds across several of
  them: that rounding never understates a cost, that the best offer is unsurpassed,
  that a signal goes out only for an offer confirmed on freshly fetched books that
  locks a profit, where its gate is unlocked and every limit admits it,
  that a feed never touches a book that is not subscribed.
- `app/` is the program: the command line, files, the database, HTTP, the market
  feed and the services behind gRPC.
- `tests/` runs the library, with the crates that it calls.

Calls into other crates stand behind small functions whose contracts are believed:
decimal arithmetic (`rust_decimal`) in `src/decimal.rs`, JSON (`serde_json`) in
`src/json.rs`, timestamps (`time`) in `src/gamma.rs`, digests (`sha2`, `hex`) in
`src/identity.rs`. Their doc comments say what is claimed of each.
