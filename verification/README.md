# kartoteka

Logic of Kartoteka's desktop front end, as a verified library: the decisions, formats
and data rules of its list, sidebar, detail pane, relations map, sign-in and backups,
with contracts checked by Verus. The GTK widgets themselves are not part of it.

- `src/` — the library. `text` and `order` hold the character-level helpers and the
  order of text; `webmeta` reads citation metadata out of a web page; `new_item` builds
  entry YAML (from the New item form, a scraped page, or Unpaywall); `entries` decides
  which entries the list shows; `collections`, `columns`, `bookshelf`, `creators` and
  `attachments` hold the sidebar, spreadsheet, cover-grid, creator-editor and reader
  rules; `graph` and `ranking` build the relations map and its analytics; `config`,
  `github`, `webdav`, `backup` and `friendly` hold the settings, the sign-in loop, the
  WebDAV mirror's URLs, the backup decisions and the error sentences; `detail`,
  `note_editor`, `nodes`, `relations`, `custom_fields` and `acquire` hold what the detail
  pane and the note, node, relations, custom-field and acquire dialogs read from their
  forms, save and ask for.
- `app/` — the I/O around it: the configuration file, the HTTP exchanges with GitHub, the
  WebDAV upload, page and PDF downloads, folder copies.
- `tests/` — tests of the library on concrete values.
