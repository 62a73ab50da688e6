# torsearch

A command-line tool that gathers information on ransomware groups from public
trackers (ransomware.live and ransomlook.io) into a SQLite database, and prints
listings and markdown profiles of groups, victims and ransom notes.

The decisions and text processing of the tool form a library verified with
Verus; the command itself, the HTTP requests and the SQL live in `app/`.

## Layout

- `src/` — the verified library.
  - `text.rs`: character-level helpers (truncation, padding, decimal text,
    number parsing, substitution, joining).
  - `table.rs`: plain-text tables, with the proof that the rows line up.
  - `cli.rs`: reading the command line (`-N`, ids, keywords, options).
  - `json.rs`: a plain JSON tree, filled by `serde_json`.
  - `profile.rs`: a group's tools and techniques, and their counts across groups.
  - `summary.rs`: counting keys, or the rows that list them, and ranking them
    by count.
  - `note_page.rs`: reading ransom-note links from the tracker's page.
  - `report.rs`: listing tables and the group and victim profiles.
  - `sync.rs`: the records read from the trackers and the decisions of a
    synchronisation run (which sites, contacts, victims and notes are stored
    and under which group; which request comes next, which failures end the
    run, and the pauses between requests).
  - `db.rs`: the records exchanged with the database.
- `app/` — the `torsearch` command: HTTP, SQLite, files, printing.
- `tests/` — tests of the library.

## Usage

```
torsearch sync                  fetch and store everything (creates the database)
torsearch groups [-N] [id|word] list, show or search groups
torsearch groups --by-tools     groups per tool
torsearch groups --by-ttps      groups per technique
torsearch victims [-N] [id]     list or show victims
torsearch victims --by-country  victims per country
torsearch notes [-N]            list ransom notes
```
