# winnow

A parser combinator library whose parsers and combinators carry contracts, checked by
Verus.

Small parsers (literals, tokens, numbers, character classes) are combined into larger
ones (sequences, alternatives, repetitions, expressions by operator precedence). Every
parser implements the `Parser` trait, whose `parse_rel` states which results it may give
on an input: what it consumes, what it returns and how it fails. Combinators state their
results in terms of the parsers they wrap, so the contract of a composed parser follows
from the contracts of its parts.

## Layout

- `src/input.rs`: the input streams (`&[u8]`, `&str`, `Streaming`, `Located`,
  `Stateful`) and the traits through which parsers read them.
- `src/error.rs`: error modes and error types, and the report of a `VerboseError`.
- `src/parser.rs`: the `Parser` trait and the combinator methods it provides.
- `src/token.rs`, `src/ascii.rs`, `src/number.rs`: parsers of literals, tokens, character
  classes and binary numbers.
- `src/basic.rs`, `src/combinator.rs`, `src/sequence.rs`, `src/branch.rs`,
  `src/multi.rs`: combinators.
- `src/expression.rs`, `src/precedence.rs`, `src/shunting_yard.rs`: expressions by
  operator precedence.
- `src/hex.rs`: hex dumps.
- `src/find.rs`: searches in byte slices, through the `memchr` crate.
- `src/laws.rs`: properties relating the parsers to each other, proved.
- `tests/`: tests run against the compiled library.
- `app/`: what stays outside the verified library: floating-point number parsers, which
  read their bits through the verified integer parsers, and the printing of errors and
  hex dumps.
