# quokka

An external test runner for [Buck2](https://buck2.build), whose decisions are proved
with [Verus](https://github.com/verus-lang/verus).

Buck2 executes and caches; the runner decides. It receives one spec per target, has
the tests of the target listed, shares them out to shards, batches them, has the
batches run, judges and repeats them, and reports every test exactly once. A run
passes only if nothing was lost and nothing failed.

Point a repository's `.buckconfig` at the program:

```ini
[test]
  v2_test_executor = /path/to/quokka
```

## Layout

| Path | What |
| --- | --- |
| `src/` | The library: what the runner decides and computes, with its contract and its proof. |
| `tests/` | Tests on concrete values, among them whole sessions against a build tool in memory. |
| `app/` | The program: sockets, files, tasks, and the gRPC services. |

Within `src/`:

- `cli`, `options`, `config`: the command line, and what it resolves to.
- `spec`, `proto`, `executor_server`: what arrives for a target.
- `policy`, `caching`, `environment`, `variant`, `batching`: what labels and options
  ask for.
- `listing`, `translator`, `json`: the frameworks: arguments, listings, outcomes.
- `execution`: requests, the supervised command, resource markers.
- `result`, `ids`, `names`, `time`, `num`, `text`, `order`, `fx`: values and tools.
- `duration_db`, `db_codec`, `db_cli`: the timing and flake history, its files, and the
  `db` commands.
- `scheduler`: the course of a session. `plan` derives the policy of a target,
  `discover` lists its tests, `batches` makes its batches, `group` prepares and judges
  one execution, `observe` and `action` follow an action over its attempts, `finish`
  turns its results into reports, `report` keeps the verdict, `ci_report` and `install`
  write the session report.

Functions named `law_…` state what holds across functions, such as that every test
has one shard, that what is flushed is what is loaded again, or that the previous
session report is never lost.

## What is taken on trust

The library calls clap for the command line, serde_json for lines of JSON, and
rustc-hash for its maps and keys. Each call stands behind a small function whose
contract says what is believed of it. The key of a test in the history is a hash that
depends on the machine, so nothing is said of its value: functions that take the key
as an argument are exact.

## Building the program

The program takes two inputs that are not kept here. The bindings of the test-runner
protocol are generated from Buck2's `.proto` files into `app/gen/`; they are prost
messages, which is what `prost` and `prost-types` are needed for. The shell functions
that supervise the processes of an action go to `app/resource_supervisor.sh`. The
library and its tests need neither.
