# rustbrowser

Fetches web pages and distills them for language models: main content as Markdown, links, tables,
an operable action tree, and sessions that act on a page by the ids of its actions.

- `src/` is the library. Everything in it decides or computes on plain values, and is verified
  with Verus. Work that needs a network, a disk or a browser is asked for: `pipeline`, `request`
  and `session` are state machines that name the next thing to do and go on with its outcome.
- `app/` is the program around it: the command line, the HTTP client, the cache on disk, the
  headless browser, and the server for language models.
- `tests/` runs the library with the real HTML parser, tokenizer and URL parser linked in.

Calls into other crates stand behind small functions whose contracts are not proved; each says
above it which call it makes and what is claimed of it.
