# CodeHelm

CodeHelm is a provider-neutral, safety-first coding agent for the terminal. This crate holds its
engine as a library in Verus: every decision that it takes is a function with a contract, and the
contracts are proved.

## Layout

- `src/` is the verified library. What needs a file system, a network or a process is a state
  machine there: it says what to do next, and goes on with what came of it.
  - `agent`, `context`, `protocol`, `error`: the loop, what a model gets to see, and the messages.
  - `providers`: requests, streams, responses and retries of OpenAI, Anthropic and Ollama.
  - `permissions`, `paths`, `tools`: commands, globs, containment, and the tools that read a
    workspace.
  - `config`, `session`, `checkpoint`, `skills`, `workspace`, `mcp`: layered settings, saved runs,
    undo, skill packages, project instructions, and the tools of servers.
  - `json`, `text`: JSON values and texts, with the models that the contracts speak of.
- `tests/` runs the library on concrete values.
- `app/` is the command line program: it does the input and output that the library asks for.

## Laws

Functions whose names begin with `law_` state what holds of the library as a whole: that a run asks
the model at most once a turn, that a tool runs only after it was approved, that planning and
reviewing only read, that denials win over permissions, that a window never parts a tool result from
the call it answers, that streams say the same however they are cut into chunks, that later settings
win over earlier ones, that restoring a checkpoint undoes what was captured and nothing else, and
more of the kind.

## What is taken on trust

JSON text is parsed and written by `serde_json`, and globs are matched by `globset`. The few
functions that call them, or a function of the standard library without a specification, are marked
`#[verifier::external_body]` or declared with `assume_specification`; the comment above each says
what is claimed of the call.

## Instructions of a project

The program reads `AGENTS.md` in every directory from the root of the workspace down to the working
directory. Further file names can be given in `CODEHELM_INSTRUCTION_FILES`, separated by colons.
