# tradeup

A finder for profitable CS2 trade-ups: ten skins of one rarity are traded for one
skin of the next rarity from the same collection. The library groups the skin
catalogue by collection and rarity, picks the candidate targets, drives the
search for targets that sell for more than ten of their cheapest input, keeps
one trade-up per collection and assembles its outputs and values.

Layout:

- `src/` — the verified library (Verus). `models` holds the rarity scale and the
  trade-up records; `engine::tradeup` the grouping, targeting, the
  `ProfitSearch` state machine, deduplication and assembly; `data` and `api`
  the joins of metadata with market data, the market scan, listing queries and
  price averaging; `cache` the price cache; `text` string comparison, decimal
  text and number parsing.
- `app/` — the program around it: HTTP requests, JSON decoding, the sleeps
  between requests, the shuffle of candidates, and the wear arithmetic, which is
  floating point.
- `tests/` — tests of the library on concrete values.

Floating-point values (wear floats, expected value, return on investment) are
carried through the library as their IEEE bit patterns in fields named
`*_bits`; the arithmetic on them stays in `app/`.
