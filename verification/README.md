# usb_forensic

A USB device-history correlation engine, verified with Verus.

Source adapters turn the decoded records of each forensic artifact (setupapi logs,
registry hives, event logs, Shell Links, jump lists, device images, macOS plists,
`system_profiler` captures and unified logs) into atomic claims. The correlation core
groups the claims per device and attribute and grades how well independent storage
containers agree; the audit turns the grades into findings; the renderers present the
result as a grid, a timeline, a Markdown report, a `.docx` and a `.pdf`.

## Layout

- `src/` — the verified library. Every public function carries a contract over
  mathematical models (`Seq`, `Map`, spec functions and views); the `law_*` proof
  functions state properties that span functions, such as that correlation does not
  depend on the order of the claims, or that every finding is an observation.
- `src/readers.rs` — the reader crates that decode raw bytes (plist, JSON, Shell Links,
  jump lists, registry hives, event-log records, setupapi and Linux kernel logs), each
  result named as a function of its input.
- `src/evidence.rs` — telling an input file's kind from its content, reading its bytes
  into the intake, and the pipeline from decoded records to histories and findings.
- `tests/` — the test suite, run against the compiled library.
- `app/` — the `usb4n6` command: reading files, the partition-diagnostic event reader
  (which works from a path), and writing JSONL or the rendered reports.

Calls into outside crates stand behind `#[verifier::external_body]` wrappers whose
contracts say what each call returns.
