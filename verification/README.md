# openpanel

A command line for the OpenPanel API (track, export, insights, manage), as a verified library and a
thin program around it. The commands come from a command tree, `schemas/command_tree.json`; beside
them stand event queries, funnels over raw events, and a diagnosis of the configured client.

## Layout

- `src/` is the library. Everything in it is verified with Verus against its `requires` and `ensures`.
  - `text`, `pattern`, `numeral`, `fields`: texts, searching and splitting, numbers, lists of fields
  - `calendar`, `time_window`: dates, moments, local days
  - `json`, `json_path`, `json_text`, `redact`: JSON values, dotted paths, `serde_json`, secrets
  - `query`, `filter`, `fetch`, `rows`, `funnel`, `output`: event queries from arguments to lines
  - `command_tree`, `cli`, `args`, `dispatch`: commands, their arguments, and what they lead to
  - `values`, `address`, `headers`, `request`: requests from arguments; `url` and `http`
  - `retry`, `response`, `doctor`: replies, and what becomes of them
- `app/` is the program: `clap`, the environment, HTTP, web sockets, files, and the command tree in its
  file, which is installed beside the program under `schemas/`.
- `tests/` runs the library with the crates it calls.

## What is proved

Contracts are stated over views: texts are sequences of characters, JSON objects are maps. Functions
that can fail say which message comes on which input. What the library states as a whole stands in
public proof functions whose names begin with `law_`.

What `serde_json`, `url`, `http` and the standard library do is trusted, in the functions marked
`external_body` in `json_text`, `address` and `headers`, and in one declaration in `text`.
