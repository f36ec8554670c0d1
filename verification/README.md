# balatro_seed_engine

The core of a Balatro seed searcher, written in Verus.

`src/` is the verified library:

- `seed` — seeds over the 35-symbol alphabet: parsing, rendering, base-35
  ranks, the successor order a scan follows.
- `rng` — the integer half of LuaJIT's tausworthe generator: lane seeding
  from bit patterns, the step, the bit pattern of each drawn double.
- `instance` — node keys, their rendering, and the node cache's slots.
- `filter` — filter clauses, their compiled ops, and the compiler, which
  orders ops by estimated rarity, the estimates being binary64 doubles.
- `binary64` — positive doubles as significand and exponent, and the
  product rounded to nearest, ties to even.
- `probe` — the decisions of evaluating one op against a seed, `AnyOf`
  groups included: their leaves are probed in order, each on a fresh copy
  of the run, until one holds.
- `search` — the decisions of a scan: matching scores, the scan cursor,
  match records, and the law that op order does not change which seeds
  are reported.
- `derive`, `items`, `state` — draw outcomes and run configuration.
- `v3` — the diagnostic workload, the double-float generator's lanes, the
  boss lock rule and the boss pool (open bosses, sorted by name).
- `sweep` — seeds for the regression sweep.

`app/` holds what is floating point (`pseudohash`, seeding doubles, draws as
doubles, the double-float arithmetic, the per-run instance), the JSON form of
filters, the loops that perform the derivations a probe asks for, the scan
loop and the WASM entry point. The game-table derivations themselves (shop,
tag, boss, voucher and pack draws) are not part of this source: `app/` takes
them as a `Derivations` implementation.

`tests/` exercises the library from outside.
