# Sandcastle

The parts of an agent system that decide, as a verified library, and the program `agent`
around it.

## What is in it

- `vshell`, `audit`: a small in-process shell, and the scanner that looks at commands before
  they run.
- `harness`, `subagent`, `persist`, `runlog`: conversations with a model and its tools, tasks
  beside them, the files that keep them, and the log of a run.
- `anthropic`, `openai`, `wire`, `http`, `json`: the wire formats of the models' providers.
- `fstools`, `mcp`, `mcp_server`: file tools that stay in a directory, and tools over the Model
  Context Protocol, on either side of it.
- `gitea`, `github`, `forge`, `jj`, `tmpl`: forges, workspaces, and skills with placeholders.
- `server`, `cluster`, `actor`: chats over HTTP, actors on other nodes, questions to actors.
- `cli`: the options and commands of the program.

## How it is laid out

`src/` performs no input or output. Where a function needs something done (a file read, a
process run, a request sent), it says what, and is called again with the outcome: it is a
function of its arguments and of the outcomes so far, and its contract says what it comes to for
every one of them. `app/` does these things; `tests/` plays them in memory.

Contracts are stated over mathematical forms of the data (`View`). Properties that span several
functions are the public proof functions whose names begin with `law_`.

What is taken on trust is stated where it stands: a few functions of the standard library, in
`src/text.rs` and `src/json.rs`.

## Environment of `agent`

- `ANTHROPIC_API_KEY`, `OPENAI_API_KEY`, `OPENAI_BASE_URL`: the provider.
- `MODEL`, `ANTHROPIC_DEFAULT_MODEL`: the model, where the command line names none.
- `AGENTS_ROOT`: where `.agents/skills` is.
- `SESSIONS_DIR`: where sessions are kept.
