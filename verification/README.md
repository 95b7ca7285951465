# devhub

The logic of DevHub, a developer's project hub (project catalog, git views,
terminal, editors, MCP server), as a library verified with Verus: the functions in `src/` carry
`requires`/`ensures` contracts that Verus proves, apart from a few thin
wrappers around the standard library (the clock, Unicode case mapping, path
names) whose contracts are trusted, and the properties that span several calls are stated as `law_*` proof
functions.

- `src/` — the verified library, one module per concern: catalog and scan
  state (`catalog`, `scan`, `ordering`, `selection`, `settings`), the
  workspace's decisions (`workspace`, `commands`, `shell`, `ui`), git views
  (`git`, `history`, `filetree`, `paging`), the terminal emulator
  (`terminal`, `sgr`, `termcolor`, `keys`), editors (`editors`, `launch`),
  markdown and text helpers (`markdown`, `textops`, `chars`, `digits`),
  architecture diagrams (`diagram`), the MCP server's rules (`mcp`), todos
  (`todo`), error messages (`ask`), persistence diagnostics (`diagnostics`)
  and themes (`theme`).
- `app/` — a command-line front end around the library: the MCP HTTP
  server, editor discovery, scan-root checks, terminal byte feeding and the
  floating-point colour mixing of the light themes.
- `tests/` — tests of the library on concrete values.
