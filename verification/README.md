# Rustique

Rustique is a command-line manager for Vintage Story mods: it syncs what the
mods website knows about the installed mods, installs mods with their
dependencies, updates them, searches the website's mod list, and manages
modpacks.

## Layout

- `src/` — the library, verified with Verus. Public functions state in
  their contracts what they return or change; where an answer comes from
  the clock or the platform (the current time, whether two path texts name
  one file), the contract states what holds of every answer and a function
  that takes the answer as an argument is exact. The laws that relate
  several functions are public proof functions (`lemma_*`).
  - `version`, `semver_calls` — mod versions and their order, latest and
    pinned releases.
  - `sync` — the sync file of installed mods and their latest releases.
  - `install` — install requests, dependencies, updates, old files.
  - `search`, `order`, `textsort` — search criteria and sorting.
  - `listing` — the cells and labels of the list and search tables.
  - `table`, `config`, `settings` — column settings, pins, game versions.
  - `modpack` — modpack metadata and the enabled/disabled lists.
  - `client`, `download`, `timing` — addresses, file names, sync ages.
  - `text`, `keyed`, `traits` — text and keyed-list helpers.
- `tests/` — tests of the library on concrete values.
- `app/` — the `Rustique` program: command line, files, network, terminal
  output; it hands plain values to the library and acts on its answers.
