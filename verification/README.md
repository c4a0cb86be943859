# scriptures

A terminal Bible reader. The library (`src/`) holds everything the reader
decides, each function with a contract proved by Verus:

- `bible`: books, chapters and verses, and `load_bible`, which reads them out
  of a parsed JSON document (`{ book: { chapter: { verse: text } } }`).
- `app`: the reader's state (`App`), the book tree, moving through chapters
  and verses, the case-insensitive search, and `handle_key`, the effect of
  each key press.
- `display`: the text that the screen shows, computed from the state: the
  rows of the book tree, the open chapter's title, heading and visible lines,
  the search box's message, count and hit rows, previews and mode names.
- `text`: decimal numbers, substring search and the standard-library string
  operations the reader uses.
- `laws`, `search_laws`, `bible_laws`: proved properties across operations.

`app/` is the program around it: it reads the Bible file, turns the
library's strings and flags into ratatui widgets, and turns crossterm key
events into `Key` values.
