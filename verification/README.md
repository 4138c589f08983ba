# detector

Detection rules over market, protocol and chain events, written in Verus: depegs of stable
assets, falls of the value locked in lending protocols, flash-loan attacks, and rules that
tenants write themselves. Every decision is a function with a contract that says exactly what
it returns, and what the library promises as a whole is proved as public `law_..` functions.

## Layout

- `src/` is the verified library.
  - `double`, `digits`, `order`, `text`, `reader`, `json`, `time`, `assoc`: doubles as IEEE 754
    bit patterns with exactly rounded arithmetic, decimal text, strings, documents, times,
    lookups.
  - `event`, `settings`, `quotes`, `cache`, `aggregation`, `incident`: events and detections,
    tenant settings, quote histories, bounded caches, weighted prices, and the life of an
    incident.
  - `expression`: expressions of the Common Expression Language, compiled and run by the `cel`
    crate behind contracts.
  - `dpeg`, `depeg_v2`: depegs of a market, with fixed branches and with policies that may hold
    expressions.
  - `tvl_drop`: falls of deposits and pauses of a protocol.
  - `flash_loan`, `generic_rule`: attacks inside one transaction, and rules that an outside
    runtime runs.
  - `worker`: what the worker decides between its calls to chains, files and the database.
  - `outside`: the calls to clocks, identifiers and date texts.
- `tests/` runs the library on concrete values.
- `app/` is the program around it: it connects to the database, the event stream, the chain and
  the rule runtime, and hands the library plain values.

## Numbers

A `Double` holds the 64 bits of a number. Sums, products, quotients and comparisons are those of
round-to-nearest, ties-to-even, computed with integers and proved against the exact rational
result. Use `f64::to_bits` and `f64::from_bits` at the edge.
