# mainlynorfolk-mcp

A reader over [Mainly Norfolk](https://www.mainlynorfolk.info/folk/), Reinhard
Zierke's archive of English folk music, and
[Waterways Songs](https://www.waterwaysongs.info), served as one GraphQL schema
behind an MCP server (`folk`).

The library in `src/` is written in Verus. Its functions are verified
against their contracts, except the few thin wrappers around outside code
(scraper's HTML parser, serde_json, SHA-256, the clock and some std string
and character operations), whose contracts are stated from that code's
source and documentation and taken on trust:

- `text`, `dom`: the string and document-tree operations the parsers are
  built from, with their specifications.
- `parse`: HTML to models: song pages, artist pages and discographies, the
  bibliography, canal songs and the waterways menu.
- `client`: which URLs may be fetched, how a link found on a page resolves,
  the bounded in-memory page cache, cache keys, the order of the cache tiers
  (memory, then disk, then a conditional request), freshness and what a
  reply calls for.
- `json`: the JSON text of a search form, and that different forms get
  different text.
- `archive`, `commands`: search forms and their refusals, and the filters
  over whole lists.
- `mcp`: which HTTP surfaces the flags ask for; and for the GraphQL layer,
  paging (cursors, windows, errors), loader keys and the filters the root
  fields apply.

The laws the library keeps across calls (a page never exceeds the cap, a
cursor resumes after its item, a cached page is found again, a fetch never
leaves the two archives, and the rest) are public proof functions beside the
code they speak of.

`app/` is the program around the library: the command line, HTTP and the disk
cache, and the GraphQL schema with its data loaders. `tests/` runs the library
on concrete values.
