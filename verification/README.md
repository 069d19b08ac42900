# webgit

A git repository viewer that runs in the browser. The repository is read over
plain HTTP, one object at a time; objects are kept in the browser's database,
and pages in the manner of cgit are drawn from them.

- `src/` is the verified library: what a URL names and how one is written, what
  the repository is asked and what the answers come to, what a response means,
  what is kept in the cache and under which keys, and what each page says. Its
  functions are proved against their contracts with Verus, but for the few calls
  named below. Text is modelled as sequences of characters, and pages as the
  values that they show.
- `app/` is the browser around it: the markup, requests, the database, and the
  git reader.
- `tests/` runs the library on concrete values.

Markdown is rendered by `comrak`, dates and times of day are written by `jiff`,
and bytes are read as text, and characters put behind it, by the standard
library. What the library says of those calls is believed, not proved: each
stands in a small function, or in a specification, of its own (in
`src/render/markdown.rs`, `src/render/time.rs`, `src/utf8.rs` and `src/text.rs`)
whose comment says what is relied on.
