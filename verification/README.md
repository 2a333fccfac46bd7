# dregs

Mutation testing for Solidity projects that use Foundry: mutants are generated
with [Gambit](https://github.com/Certora/gambit), `forge test` runs against each,
and a report says which mutants survived.

The decisions of the tool are written in Verus and proved against their
contracts:

- `src/diff.rs` reads unified diffs into the added line ranges per file and
  filters targets and mutants by them;
- `src/partition.rs` parses `slice:M/N` shard specs and deals mutants to shards round-robin by position;
- `src/ignore.rs` reads `dregs:ignore` comments and splits mutants accordingly;
- `src/runner.rs` reads what `forge` prints (failed tests, test listings,
  compilation failures) and steps through a mutant's test commands;
- `src/report.rs` counts verdicts, merges partial result files and builds the
  lines of the text and markdown summaries;
- `src/config.rs`, `src/manifest.rs`, `src/generator/` and `src/cli.rs` hold the
  configuration checks, the manifest layout, the Gambit call parameters and the
  command-level decisions;
- `src/text.rs`, `src/json.rs`, `src/paths.rs` and `src/external.rs` are the
  string, JSON and path primitives these are built on.

`app/` is the command-line program around the library: argument parsing, file
and process I/O, the thread pool, the Gambit call, and the score, which is a
floating-point ratio.
