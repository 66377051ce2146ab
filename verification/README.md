# skill_manager

A skill manager keeps agent skills in one central repository and links
them into the skills directories of the tools that use them. This crate
holds its logic, with machine-checked proofs of its contracts:

- `src/links.rs` judges each entry of a tool's skills directory (healthy
  link, broken link, link elsewhere, identical or diverged copy, orphan),
  plans the repair of one entry, and plans and counts the bulk repair.
- `src/manifest.rs` builds the portable manifest of skills, scenarios and
  synced settings from what the store holds.
- `src/import.rs` plans the store changes that importing a manifest makes.
- `src/records.rs` and `src/strings.rs` hold the store's rows and the
  helpers on strings and keyed entry lists; `src/fresh.rs` draws random
  identifiers and reads the clock.

`app/` reads the file system and the database, hands the library plain
values, carries out the steps it plans, and serialises the manifest.
