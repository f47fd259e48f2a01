# textrest

The core of a web-novel reader: book sources and their rules, the rule
language that reads search results, book details, tables of contents and
chapter texts out of web pages, EPUB books, reading progress, and the
settings of the HTTP clients that fetch the pages.

`src/` is the library, written in Verus and verified as a whole: its public
functions carry contracts that state what they return or change, and Verus
proves every function's body. Contracts speak of the pages, rules and records as
sequences of characters; what an outside crate computes (HTML parsing and CSS
selection with `scraper`, regular expressions, URL resolution, JSON and JSON
path, the JavaScript interpreter, base64, hashing, time formatting) is reached
through small trusted wrappers whose contracts state what the crate's
documentation promises, or name the result where it is a function of the
arguments alone.

Main modules:

- `text`, `num`, `path`: characters, trimming, searching, integer parsing.
- `rule_split`, `selector`, `index_rule`, `css`, `json`, `js`, `rule_engine`:
  the rule language, from splitting compound rules to evaluating them on a page.
- `book_info`, `chapter`, `search_result`: reading the pages of a site.
- `web_book`: building search URLs, walking a table of contents page by page,
  gathering chapter texts fetched at once.
- `book_source_parser`, `models`, `db_row`: book sources and stored records.
- `epub`, `base_parser`: EPUB books and the parser registry.
- `http`: client settings for a source, the client cache key, and the
  least-recently-used client cache.
- `api`: the decisions behind the application's API calls.

`tests/` runs the library on concrete pages and values. `app/` is ordinary
Rust around the library: the SQLite tables, the HTTP clients, reading EPUB
files, the configuration file and the asynchronous API.
