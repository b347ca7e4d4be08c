# strata

The release-channel and version logic of the Strata self-updater, verified
with Verus.

- `src/text.rs` — character-level building blocks: strictly decimal and
  `FromStr`-style `u64` reading, splitting on a separator, finding the first
  occurrence of a character, and shortest decimal rendering, each with its
  specification and the lemmas that connect them.
- `src/release_channel.rs` — `Channel`, `BuildKind`, `Prerelease` and
  `Version`: the release-tag grammar (`parse_tag`), `Version::parse`, the
  canonical text of a version and semver precedence (`Version::cmp`,
  `PartialEq`, `PartialOrd`).
- `src/version_laws.rs` — laws of the grammar: precedence is a strict total
  order with the documented rules, the leading `v` is optional, canonical
  text reads back, and two readings are equal exactly when their canonical
  texts are.
- `src/update_check.rs` — loose version triples (`parse_version`,
  `is_newer`), the release archive naming convention, and
  `evaluate_release`, which decides what the latest published release means
  for the running build.
- `app/main.rs` — the I/O around it: the HTTP request to GitHub (ureq),
  JSON decoding (serde), the worker thread, and printing the outcome.
