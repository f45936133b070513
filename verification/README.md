# blue_ide

The logic of the Blue IDE editor as a verified library, with a thin shell
around it.

- `src/` — the library, verified with Verus: text and path helpers, language
  detection, editor positions, the quick-open launcher and its fuzzy ranking,
  the problems panel, pane layout and focus, git diff hunks and repository
  models, the LSP wire format (framing, encoding requests, parsing responses),
  the language-server session and client state, the server table, start-up
  timing, profiler status, the plugin system's state, the markdown preview
  (parsing with pulldown-cmark and layout) and the new-project wizard.
- `tests/` — tests of the library, run against the compiled crate.
- `app/` — the shell: processes, threads, the file system, `git2`
  repositories and the workspace walk. It hands the
  library plain values and acts on what it returns.
