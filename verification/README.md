# igniscope

A verified library, and the command built on it, that inspects Ignition
project exports (`.zip`) and gateway backups (`.gwbk`) deterministically.

- `src/` is the library, checked by Verus. Every public function states what
  it returns in its contract, over mathematical models of its data; the laws
  of the library (listing, inspection and discovery are deterministic, errors
  included; inspection passes a listing error on unchanged; every
  record's files exist in the archive, the summary adds up the projects, the
  report always has its sections, exit codes are distinct) are proof
  functions next to the code they speak of.
- `app/` is the `igniscope` command: argument parsing with clap, reading the
  archive file, parsing `project.json` with serde, and writing
  `analytics.json` and `report.md`.
- `tests/` runs the library on archives built in memory.

```bash
igniscope summarize ./path/to/archive.zip
igniscope -v summarize ./path/to/archive.gwbk
igniscope analyze ./path/to/archive.gwbk --out-dir ./out
```
