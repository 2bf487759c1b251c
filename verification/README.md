# karga

A terminal news reader (Turkish and world news from RSS/Atom feeds, with
"on this day" anniversaries from Wikipedia), whose logic is a library verified
with Verus.

- `src/` — the verified library:
  - `text.rs`: characters of strings, Unicode white space, words, trimming,
    substring search, decimal numbers, the order of strings;
  - `ui.rs`: truncation, word wrapping, HTML to plain text, keyword
    highlighting, theme colours;
  - `rss.rs`: news items from RSS and Atom documents, newest-first ordering;
  - `wiki.rs`: built-in keywords, keyword scan, anniversaries, page addresses;
  - `config.rs`: categories, default feeds and theme, merging default feeds;
  - `notify.rs`: which desktop notifications are shown and what they say;
  - `app.rs`: news grouped by category and the key-press state machine;
  - `screen.rs`: the texts of the list view and of the detail view.
- `app/` — the program: configuration file, HTTP, terminal drawing and the
  event loop.
- `tests/` — tests of the library.
