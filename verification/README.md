# ttfx

Verified core of a terminal text-effect engine's word coloring and browser
session, written in Verus.

- `src/utils/bands.rs`: the field bands (crest, hover, lit, mid, dim) and
  `apply_field_bands`, which colors each input character by where the middle
  of its inked half-pixels lies in the word, computed on exact fractions.
- `src/utils/{graphics,palette,text}.rs`: colors, palettes, character classes.
- `src/engine/`: the characters and terminal arena the bands work on, and
  packed frames.
- `src/catalog.rs`: the effect catalog as JSON.
- `src/session.rs`: a session's setup checks, frame state and step rule.
- `app/`: floating-point band lookup and the catalog read from a `clap`
  command definition.
