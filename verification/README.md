# Verified string-to-integer conversion

A Verus library that parses byte slices into every primitive integer
type, in any radix from 2 to 36, with the behaviour proved against a
mathematical model.

- `src/model.rs` defines what a byte slice denotes: digit values, where
  the sign, leading zeros and digits end, the number a run of digits
  denotes, and two's-complement wrapping.
- `src/integer.rs` describes each integer type by its range and gives the
  overflow-aware arithmetic the parser needs.
- `src/state.rs` holds the parse position and the position of the first
  overflow.
- `src/atoi.rs` holds the digit loops (wrapping and checked), sign
  handling and the generic unsigned and signed parsers.
- `src/api.rs` holds the `ato*_slice` and `try_ato*_slice` functions for
  each type and the parse outcome type.
- `src/laws.rs` states properties that relate several parses.
- `app/lib.rs` offers the same parsers over raw pointer ranges.
