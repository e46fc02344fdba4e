# apexdaemon

A plugin-style background automation daemon for a single-user desktop:
theme sync, fleet health, security watch, vault backup, repository
housekeeping, a read-only dotfiles doctor with local snapshots, profile
checks and file validation.

## Layout

- `src/` — the library, verified with Verus. Every decision the daemon
  takes lives here: config defaults, path rules (`paths`, `path_order`),
  the text handling the plugins rely on (`text`, `order`), the state store,
  the supervisor's backoff, and one module per plugin under `src/plugins/`
  holding what that plugin reports, when it notifies and what it records.
  Each function states its behaviour in `requires`/`ensures`; the laws that
  span several functions are public proof functions named `law_*`.
- `app/` — the binary: command line, config file parsing, the plugin
  tasks and their I/O (git, `gh`, `systemctl`, `journalctl`, the file
  system). It hands what it observes to the library and acts on the
  answers.
- `tests/` — tests of the library on concrete values.

The trusted boundary is small: `String::push` (text.rs), the wall clock
(std's `SystemTime` and `Duration`, rendered by chrono's
`DateTime::from_timestamp`, in clock.rs), and the TOML parser's verdict on a file
(`toml_syntax_error` in `plugins/validation.rs`).
