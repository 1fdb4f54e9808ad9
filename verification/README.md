# pamm

A mod-pack manager for Arma 3 communities that host their own mods, as a
verified library.

`src/` holds the logic, each function with a contract that Verus proves:

- `manifest`, `pack_diff`: the tree of a pack's files and the differences
  between two versions of it;
- `download`, `patch`: the steps that bring a client's copy in line with a
  diff, and the byte ranges of a PBO archive to fetch;
- `entries`, `state`: index entries and checksums of files read from disk, and
  the working state of a pack;
- `handle`, `sync`, `models`: the in-memory repository, pack lookups, parent
  chains, configuration sync and user settings;
- `launch`, `templating`, `server`, `publish`, `media`, `paths`: launching,
  deployment scripts, deploying, building the published tree (and what a
  build writes besides the pack's files: indexes, configuration, layout
  version), media files and lexical paths;
- `layout`: the layout version a repository records, the refusal of a remote
  not rebuilt for the current layout, and the moves that migrate a repository
  from the first layout.

The public proof functions state the library's laws, for example that a
manifest compared with itself yields no change, that a relative path leads to
its target, or that the requested byte ranges match the fetched parts.

`app/` is the I/O around the library: files, the index cache, HTTP downloads,
links and copies, migrating on open, running commands and launching the game.
