# rbxmonet

A command-line tool for Roblox monetization: passes, developer products and
badges are declared in `rbxmonet.toml`, merged from a universe (`download`),
pushed back to it (`sync`), and rendered as a Luau module the game can
`require()` (with an optional `.d.ts` declaration).

## Layout

- `src/` — the library, written in Verus. Every function carries a
  contract; the laws of the library are public proof functions beside the
  functions they speak of.
  - `text` — character classes, trimming, decimal text, string order.
  - `names` — slugs, censored text, name filters (regular expressions).
  - `products` — the products file model, slug-keyed sections, the diff of
    a product against its remote copy, slug normalization.
  - `codegen`, `luau` — the code generation tree and the Luau / TypeScript
    renderers.
  - `download` — merging a remote snapshot and pruning stale entries.
  - `upload` — pending creates, icon changes, offered diffs, update plans.
  - `diffs` — the state and keys of the diff viewer, and its text.
  - `api` — request and response bodies, forms, paging, error texts, the
    rate-limit decisions.
  - `icons` — icon hashes and the PNG bytes uploaded for an icon.
  - `persist` — the edits a save makes to `rbxmonet.toml`, the checks of a
    file laid out the old way, settings read from the environment.
- `app/` — the command itself: arguments, files, HTTP, the terminal UI.
- `tests/` — tests of the library on concrete values.
