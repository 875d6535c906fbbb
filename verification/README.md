# pkm_ai

A personal knowledge base built from atomic notes ("blocks") joined by typed,
ordered links, with the rules behind it stated as contracts and proved with
Verus.

## Layout

- `src/` — the verified library.
  - Vocabulary and parsing: `model`, `parse`, `ids`, `text`, `keywords`,
    `size`, `error`.
  - Blocks, positions and links: `block` (blocks, lexicographic positions,
    links), `store` (block and link stores with their listing orders and
    import rules), `listing`.
  - Commands: `ops` (create, promote, link, list), `quick`, `grep`, `spine`
    (table of contents, spine traversal, orphans), `toc` (their text),
    `database` (statistics), `application` (block use cases).
  - Checks: `promotion` (the promotion ladder), `hierarchy` (structural
    issues, cycles), `lint`, `ghost` (gap detection), `detect` (kind
    detection), `fuzzy` (title matching), `suggest` (link suggestions),
    `gravity` (how well a block fits each section, ranked exactly).
  - Tool server inputs and tools: `mcp` (sanitising, tags, properties, rate
    limiting), `tools` (block and link tools), `reorder` (moving a block along
    the spine).
  - Others: `session`, `features`, `synthesize`, `commands`, `graph` (an
    in-memory graph database with a small query language: blocks are filed
    under their `ulid` property and found again by it; relationships keep
    their properties).
- `tests/` — tests of the library.
- `app/` — the command-line program: arguments, the configuration file, a
  JSON store on disk, printing.
