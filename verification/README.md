# Coulisse

The logic of an OpenAI-compatible multi-agent server, as a verified library, with the
server's I/O around it.

`src/` is the library. Verus proves that each function in it keeps its contract.

| Module      | What it holds                                                              |
|-------------|----------------------------------------------------------------------------|
| `judges`    | Judges that score answers: configuration, merging, scores, admin views      |
| `limits`    | Token quotas per user, hour, day and month                                  |
| `mcp`       | MCP servers: configuration, OAuth, sessions, tool names, connect routes     |
| `memory`    | Conversations and memories per user, recall, context windows, extraction    |
| `prompter`  | Agents, their tools and subagents, the start-up of a server                 |
| `providers` | Conversations as providers take them, streamed events, prices               |
| `proxy`     | Chat requests and responses, response formats, tools                        |

The other modules hold what these share: texts, numbers, orders, maps by name, JSON, URLs,
identifiers, ciphers. Public proof functions whose names begin with `law_` state what holds
across functions: that users are kept apart, that a sealed token gives back what went into
it, that tool names are distinct, that a context keeps to its budget.

A few functions call other crates (ciphers, encodings, JSON, URLs, UUIDs, JSON Schema). Each
is marked `external_body`, and its comment says what is taken on trust.

Time and randomness come in as arguments or as results of which only the shape is claimed.
Floating-point numbers are held by their bits; arithmetic on them is left to `app/`.

`app/` is ordinary Rust: the database, HTTP, model providers, MCP sessions. `tests/` runs the
library.
