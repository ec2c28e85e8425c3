# apila

A general purpose agent harness for coding, in a terminal. Each directory of a
project directory holds one agent: its `config.json` names the model it runs
on, the most requests it may make in a turn and the tools it may call; its
`AGENTS.md` says what it is for; a `SYSTEM.md` (its own or the project's) holds
the shared guidelines; an optional `DIRECTIVE.md` gives it work to start on.
Agents talk to models through OpenRouter and may run shell commands.

## Layout

- `src/` is the library, written in Verus and verified:
  - `text.rs`: whitespace, trimming, decimals, joining, ordering and sorting
    of text.
  - `json.rs`: the questions the library asks of a json document.
  - `config.rs`: the project's own `config.json`.
  - `openrouter/`: the chat completion shapes, the checks a request must pass,
    the http call a request becomes and what a reply comes to.
  - `runtime/agent_config.rs`: an agent's files and settings.
  - `runtime/agent.rs`: an agent and the snapshot of it the ui reads.
  - `runtime/tool_registry.rs`: the tools an agent may call, their settings,
    their per-agent state, and dispatching a call.
  - `runtime/runtime.rs`: the list of agents and what a reload does to it.
  - `runtime/turn.rs` and `runtime/helpers.rs`: a session, as the decisions
    its worker makes on each reply and each batch of tool results.
  - `tools/`: the `end_turn` and `bash` tools.
  - `tui/app.rs`: what the terminal shows, worked out as text.
- `app/` is the program around the library: reading files, sending http
  requests, running commands, the worker threads and the ratatui screen.
- `tests/` exercises the library from outside.
