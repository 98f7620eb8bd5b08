# monk

A personal knowledge keeper: it saves links and notes with tags, keeps
offline copies of what they point to, and answers requests about them.

## Layout

- `src/` — the verified library.
  - `text`, `strset`, `tagmap`: text comparison and building, sorted string
    sets, and the tag index (tag → ids).
  - `meta`, `file_store`: an item's metadata and the metadata store (lookup by
    id or name prefix, edits, deletes, tag queries, imports).
  - `offline_store`, `adapter`: offline copies and the decisions of the web
    and video downloaders.
  - `daemon`, `request`, `response`, `status`: the daemon's handling of each
    request as a change of the stores, an answer, and the work that follows.
  - `settings`, `config`, `paths`, `pipeline`, `models`: settings and their
    defaults, the store configuration, and the front end's decisions (what a
    listing keeps, the steps of adding an item as a state machine).
  - `summary`: the text side of summaries: cleaning the text, cutting it
    into sentences, the word stems each sentence counts with, and which
    ranked sentences a summary keeps, joined in text order.
  - `store_laws`: properties that hold across operations (the tag index stays
    exact, what a write gives back on a later read).
- `tests/` — tests of the library on concrete values.
- `app/` — the daemon program: settings and store files, a line-based JSON
  server, running the downloaders (the web page through the `monolith`
  command line, videos through `youtube-dl`), and the sentence ranking of the
  summarizer (TF-IDF and PageRank), which works on floating point.

Not part of this crate: the SQLite item store, the full-text index, and the
asynchronous front end that drives them. Their decisions (`pipeline`) are in
the library; running them against a database and an index is not.
