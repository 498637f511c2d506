# rimmod

A mod manager for RimWorld: it reads the installed mods, keeps the active
load order of `ModsConfig.xml`, sorts it by the mods' load rules, searches
and installs Steam Workshop items, and deletes mods from disk.

## Layout

- `src/` is the library, written in Verus. Its public functions carry
  `requires`/`ensures` contracts over its results and changes, and the
  properties that span several operations stand as public proof functions
  (`lemma_*`):
  - `models`, `id_lists`: the mod collection and its two load-order lists;
  - `paths`: paths as the library holds them, a base text with the
    components joined onto it, so that the folders it derives are stated;
  - `mod_sorter`: ordering the active mods by `loadBefore`/`loadAfter`
    rules and finding the mods whose rules the current order breaks;
  - `editor`: selection, moves between and within the lists, undo and redo;
  - `mod_loader`, `no_version_warning`, `load_order`: turning what the mod
    folders and `ModsConfig.xml` hold into the library, and rewriting the
    `activeMods` element when the order is saved;
  - `settings`, `workshop`, `deletion`, `mod_watcher`, `labels`,
    `fuzzy_search`, `text`: the remaining decisions and texts of the
    application.
- `tests/` runs the library on concrete values.
- `app/` is the desktop application around the library: file and network
  I/O, SteamCMD, the folder watcher, and the egui interface.
