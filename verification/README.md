# cargo-impact

Blast-radius analysis for Rust workspaces: which tests, trait impls, dynamic
dispatch sites, documents, runtime surfaces and foreign interfaces a change
touches, and how sure the analysis is of each.

- `src/` is the library. Everything in it is verified with Verus: parsing of
  `cfg` predicates and feature tables, the comparison of two versions of a file,
  the analyzers, deduplication, ranking, the merge of feature sets, the report
  formats and the message handling of the MCP server. Calls into `syn`,
  `serde_json`, `toml` and `sha2` stand behind small functions whose contracts
  are trusted; each says what it relies on.
- `tests/` exercises the library with the real crates linked.
- `app/` is the command: arguments, files, git, helper programs and the server
  loop.

A confidence is held as hundredths (`85` is 0.85), and a path as its text, with
`/` between its components.

The modules follow the run: `git` and `diff` find what changed, `symbols`,
`tests_scan`, `traits`, `derive`, `dyn_dispatch`, `doc_drift`, `adapters`, `ffi`
and `trait_methods` find what it touches, `semver_checks`, `macro_expand` and
`rust_analyzer` add what helper programs know, `dedup`, `ignore` and `ranking`
decide what is reported, `analysis` and `powerset` put it together, and `format`,
`sarif`, `pr_comment`, `nextest`, `cli` and `mcp` say it.
