# win_app_delete_controller

A desktop tool for Windows that lists the applications registered in the
uninstall keys of the registry (HKLM and HKCU, 64- and 32-bit), lets the user
search, filter, sort and page through them, runs the chosen uninstall
commands one after another, and afterwards checks whether each application
really left the list.

A library verified with Verus decides what the program does: which
applications are listed and shown, which places are asked for a program's
file, what each uninstall run announces and does next, and what becomes of
each job. A thin egui program around it does the outside work those
decisions call for: it reads the registry, answers whether a file exists,
starts and waits for the processes, draws the window and stores the
settings.

## Layout

- `src/` — the verified library.
  - `text.rs` — whitespace, trimming, case folding, substring search,
    decimal rendering.
  - `command_line.rs` — splitting a command line into tokens and writing
    tokens back as a command line.
  - `uninstaller.rs` — turning MSI install calls into uninstall calls,
    choosing how a command is launched, judging whether it can run, the
    events of an uninstall run and the processes it starts.
  - `installed_app.rs` — an application and the texts shown for it.
  - `scanner.rs` — building the application list from the registry entries.
  - `sorting.rs` — a stable sort by a two-part key.
  - `browse.rs` — filters, search, ordering, paging, selection.
  - `queue.rs` — running uninstall jobs one after another, step by step.
  - `jobs.rs` — the uninstall jobs and the check that an application left
    the list.
  - `settings.rs` — the stored settings and their text form.
- `tests/` — tests of the library.
- `app/` — the program: registry reading, the window, settings file,
  process launching.
