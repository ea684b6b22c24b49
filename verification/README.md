# pila

The rules of a private World Cup prediction game, written in Verus: every
function in `src/` carries a contract that Verus proves, except the small
trusted wrappers marked `#[verifier::external_body]` around `chrono`,
`chrono-tz`, `pulldown-cmark`, `feed-rs`, `uuid` and a few std text
functions, whose contracts are taken on trust (each wrapper's doc comment
says what it claims).

- `src/` is the library: scoring and ranking, badges, group standings, the
  leaderboard and dashboard, the matchday recap input and prompt, form and
  tip checks, administrator rules, configuration, the provider feed mapping,
  news, and the in-memory stores (players, leagues, tips, champion picks,
  fixtures, invites, recaps, sent reminders). Public proof functions state
  the laws that tie several functions together (read-after-write, sort
  orders, at-most-once sending, idempotent inserts, rank properties).
- `tests/` runs the library on concrete values.
- `app/` is a small command-line front end: it reads the environment and
  files (jersey catalogue, provider JSON, feeds, recap input), converts them
  with serde into the library's types, and prints what the library computes.

Instants are seconds since the Unix epoch, calendar days are counted from
the Common Era, and ids are 128-bit numbers.
