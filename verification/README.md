# ns_emu_tools

Branch identifiers and release-metadata logic for the Eden and Citron
emulators, verified with Verus.

- `src/yuzu_branch.rs`: branch names, normalization of legacy names, the
  user-data directory and downloadability of each branch.
- `src/upstream_sha.rs`: finding the short upstream commit hash that names a
  Citron Nightly build.
- `src/release.rs`, `src/error.rs`: release metadata and the error type.
- `src/yuzu.rs`: release APIs per branch, grouping of Citron Nightly releases
  by upstream commit, merging of assets, lookup of a release by version.
- `src/text.rs`: character helpers.
- `app/lib.rs`: the asynchronous queries, which fetch release metadata through
  a caller-supplied client and leave every decision to the library.
