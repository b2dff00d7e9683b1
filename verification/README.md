# ai_write

A writing engine in which humans and language models work on the same articles,
and in which every character keeps its author.

## Layout

- `src/` is the library. Its behaviour is stated in contracts and proved by Verus.
  - `content`, `provenance`: authored text, its normal form, edits, diffs and
    paragraphs.
  - `dsl`: the tagged text form of a document, and its HTML form.
  - `coordinator`: the schedule of transactions, their locks, and the plans for
    splitting and merging articles.
  - `session`, `engine`: a conversation with a model, round by round, and a master
    with its slaves around it.
  - `req`: requests, responses, errors and the event stream of the chat API.
  - `skill`, `search`, `tool`, `observe`: writing voices, web search, tools and
    events.
  - `text`, `path`, `json`: what the others share.
- `tests/` runs the library on concrete values.
- `app/` is ordinary Rust around the library: threads, files, HTTP and JSON.

What the library takes from outside without proof stands in `text` (`String::push`),
`json` (`serde_json`) and `req::protocol` (`String::from_utf8_lossy`).

The modules named `laws` hold what is true across functions, such as that reading
back what was written of a document gives the document again, where its prose is
one author's, in one run per block, and its heading levels are 1 to 6.
