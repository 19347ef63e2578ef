# playlite

The core of a local-first game library manager, written in Verus: every function in
`src/` carries a contract that the verifier proves, except the small trusted wrappers
(marked `#[verifier::external_body]`) around calls into std and outside crates, whose
contracts are believed.

- `src/` — the verified library: launcher file formats (Steam VDF and app manifests,
  Battle.net's protobuf `product.db`, Ubisoft's configuration blocks, Heroic, Xbox,
  Indiegala, EA, GOG and Epic data), the rules that merge and de-duplicate the games of
  several sources, tag classification, the recommendation filters and diversity rules,
  PCGamingWiki wikitext and Cargo rows, the GameBrain and Gemini request/reply rules,
  cache expiry, and the Steam wishlist order. Calls into std, `regex`, `url`, `sha2`,
  `serde_json` and `chrono` stand behind small trusted wrappers whose contracts name or
  describe their results.
- `app/` — ordinary Rust around the library: HTTP requests, file and folder reading,
  SQLite caches, JSON decoding, the clock, and the floating-point scores.
- `tests/` — tests of the library on concrete values.

Verify with `verus` on `src/lib.rs`; the tests run with `cargo test`.
