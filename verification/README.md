# backstage_app_lib

The verified core of the Backstage desktop catalog, written in Verus.

- `src/` is the library. Apart from a few trusted calls into std, sha2,
  serde_json and directories, Verus verifies every function in it; where a
  function's answer rests on the clock or on another thread (the cancellation
  flag, the scan budget's clock), its contract says only what holds whatever
  that answer is:
  - `index`: index snapshots and the per-root scan coordinator, with its laws
    (superseded, cancelled and forgotten scans never publish; failures keep the
    current index; roots are independent).
  - `discovery`: the decisions of project discovery (admission of walked
    entries, warnings, git `HEAD` parsing, stable identifiers, project order).
  - `filesystem`: path containment below an approved root, read limits, and a
    bounded directory walk whose entries provably stay below its start.
  - `pi`: the isolated, sandboxed Pi requests and the checks of Pi's JSON
    event stream.
  - `generation`, `catalog`, `launcher`, `storage`, `app_paths`, `api`, `text`:
    prompt envelopes, Markdown and task rules, launch requests, cache keys,
    application directories, errors and the string operations they share.
- `tests/` runs the library on concrete values with the real outside crates.
- `app/` holds what touches the operating system: processes, the
  capability-based reader, application directories, the locked coordinator and
  the serializable forms handed to the interface.

## What this crate does not contain

Four parts of the Backstage application are not here, because each rests on a
crate that is not among this crate's dependencies:

- the SQLite store of roots, annotations, planning patterns and generated
  results, and its migrations (built on `rusqlite`);
- catalog indexing proper: turning discovered projects into bundles, Markdown
  documents and OpenSpec records, the artifact details and the continuation
  prompts (built on the shared `backstage_core` types crate);
- the command layer the desktop interface calls (built on `tauri` and its
  clipboard and dialog plugins);
- the Pi job runner that queues generation jobs and turns their output into
  generated results (built on `backstage_core`'s result and fingerprint types).

What these parts decide and that needs none of those crates (scan settling,
cache-write warnings, record keys, generation scope and envelopes, Pi output
checks, cache keys) is in `src/` and verified.
