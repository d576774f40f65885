# bible_site

A Bible reading site. The library (`src/`, verified with Verus) holds the
logic: the grammar of verse text files, how verses are filed into books,
chapters and sections, the reading order and each book's neighbours, and the
page view of a book with its anchors and links. The server (`app/`) reads the
verse text and the templates, renders pages with Tera, serves them with axum
and logs traffic.

- `src/strings.rs` – whitespace trimming, decimal rendering, string building
- `src/verse_line.rs`, `src/verse_text.rs` – verse lines and verse text files
- `src/bible.rs`, `src/bible_laws.rs` – the Bible model and what holds of it
- `src/kjv.rs`, `src/web.rs`, `src/erv.rs` – loading each version
- `src/views.rs` – the page view of a book
- `src/traffic.rs` – the traffic log record and its decisions
