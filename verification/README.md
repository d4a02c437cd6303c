# qutemarks

A local bookmark manager for qutebrowser: a small web dashboard over an SQLite
database. This crate holds its logic as a library verified with Verus, and the
server around it.

- `src/text.rs` — strings as character sequences: whitespace, trimming,
  splitting, joining, decimal formatting, with the laws that tie them together.
- `src/db.rs` — bookmarks and pinned URLs, how a database row becomes a
  bookmark, the displayed domain, condensed notes, tag normalisation and the
  `untagged` rule.
- `src/web.rs` — what the handlers decide from forms and stored tags.
- `src/settings.rs` — the CSV and Netscape-HTML exports and the HTML import.
- `app/` — the axum server, the sqlx queries and the askama pages.
