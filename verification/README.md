# xpct

An assertion library: a value is put through matchers (`equal`, `be_some`,
`every`, `match_fields`, ...), each of which may succeed and hand a value on,
fail and explain why in styled output, or err. The library is written in
Verus, and what it decides and writes is specified and proved.

## Layout

- `src/value.rs`: `Value`, the dynamic values that matchers test, with their
  mathematical model `Val`, equality, ordering, lengths and debug text.
- `src/matcher.rs`: the `Matcher` data type and `eval`, the meaning of a
  matcher on a value for either side (expected to succeed or to fail).
- `src/run.rs`: the executable matchers, each proved to compute `eval`.
- `src/matchers.rs`: the provided matcher constructors.
- `src/format.rs`, `src/formatter.rs`, `src/style.rs`: formatters, styled
  output segments and text styles, each with the exact output it writes.
- `src/assertion.rs`, `src/result.rs`: assertions and their outcomes.
- `src/strings.rs`, `src/indent.rs`, `src/text.rs`, `src/lists.rs`: text
  utilities (indentation, dedentation, lines, numbered lists).
- `src/foreign.rs`: the calls into `regex`, `serde_json`, `unicase` and
  `str::to_lowercase`, with the contracts the proofs rely on.
- `src/laws.rs`: properties of the matchers taken together (negation,
  chaining, combinators, diffs).
- `src/text_laws.rs`, `src/dedent_laws.rs`: properties of indented output
  and of dedenting.
- `app/`: what is not verified: the panicking `expect!` front end, terminal
  rendering with `colored`/`termcolor`, file-system observation and
  floating-point comparisons.
- `tests/`: tests of the library through its public API.
