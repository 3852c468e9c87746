# craftmc

A manager for a PaperMC / Minecraft server with a web control panel:
starting, stopping and auto-restarting the server process, a live console,
a file manager, plugin and marketplace installs, world backups, a region
(`.mca`) inspector and a small deal-signing API for an in-game plugin.

## Layout

- `src/` — the library, verified with Verus. It holds the manager's
  decisions, each with its contract: the server lifecycle state machine
  (`server`), the console ring buffer and batching (`console`), the stores
  for deals, chat messages, tasks, players and sessions (`deals`,
  `messages`, `tasks`, `players`, `auth`), path confinement and listing
  order (`paths`, `files`, `order`), backups, plugins, region headers and
  marketplace answers (`backup`, `plugins`, `region`, `marketplace`), and
  the request rules of the HTTP API (`api`). Laws that relate several
  operations are public proof functions named `law_*`.
- `tests/` — tests of the library on concrete values.
- `app/` — the program around the library: the axum router and handlers,
  WebSockets, the Java process supervisor, file and network I/O, JSON/TOML
  persistence, and the host metrics sampler.

The web pages are served from a `static/` directory next to the binary.
