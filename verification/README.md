# precedence_ladder

Who owns a keystroke trigger right now, and can the operator always get out?

A ladder is an ordered table of rungs (a claimant, the triggers it owns, an
action label) under an escape hatch (reserved triggers and an action). For a
trigger and a situation (which claimants are live, whether work is running),
`Ladder::resolve` answers: claimed by the first live rung, the hatch's escape,
or unbound. The reserved check comes first while work runs, so no rung can
shadow the hatch.

Layout:

- `src/` is the library, verified with Verus.
  - `text.rs`: name order (lexicographic by code point) and comparison.
  - `names.rs`: `NameSet`, a set of names kept as a strictly sorted listing.
  - `ladder.rs`: `Hatch`, `Rung`, `Ladder`, `ClaimSet`, `Situation`,
    `Verdict`, their value models, and `resolve_spec`, the meaning of
    `Ladder::resolve`.
  - `collide.rs`: `Ladder::collisions`, the authoring lint, with its exact
    meaning `collisions_spec`.
  - `table.rs`: `Ladder::from_table`, the checks a parsed table must pass
    (schema, non-empty reserved set), and `LadderError`.
  - `laws.rs`: what holds of every ladder (the escape-hatch invariant,
    first-match-wins, transparency of declining and dead rungs, when the
    lint is silent), proved.
- `app/` is the unverified edge: reading a ladder from TOML with serde and
  `toml`, serde copies of the library's types, and the content identity of a
  ladder through `content-addressable`.
- `tests/` runs the library on concrete tables, including the full
  192-case truth table of the five-claimant demo ladder.
