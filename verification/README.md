# aish

AISH is a command-line framework that brings an LLM into the terminal: it
records a shell session's input and output, hands that context to a model,
runs tools and plugins under a deny-by-default policy, and keeps sessions on
disk.

This crate is its core as a Verus library: the data structures, parsers,
state machines and rules, each public function with a `requires`/`ensures`
contract that Verus proves.

## Layout

- `src/` — the verified library, one module per concern:
  - `text`, `path`, `safe_path`: character and path helpers, and the rules a
    path from a manifest must follow;
  - `terminal`: the terminal screen model that replays escape sequences;
  - `logfmt`, `jsonl`, `capture`, `render`, `watch`: the capture log (writing
    records, reading them back, the capture session's steps, replay);
  - `json`, `jsonrpc`, `protocol`: JSON values, JSON-RPC messages and the
    daemon's length-prefixed frames;
  - `provider`, `openai`, `domain`, `events`, `derived`: model providers, the
    streaming response parser, the conversation model and session summaries;
  - `event_log`: the numbering of a session's event log;
  - `catalog`, `session`: where configuration lives, and opening a session
    directory through a `FileSystem` that callers implement;
  - `plugins`, `host`: plugin manifests, discovery order, tool policy;
  - `script`, `cli`, `markdown`: the script runner, argument parsing and the
    Markdown formatter for the terminal.
- `tests/` — tests that run the compiled library.
- `app/` — the program around the library: `main`, file and network I/O,
  processes, the terminal loop, and the serde and clap copies of library
  types.

## Calls into other crates

Where the library needs another crate (serde_json, serde_yaml, base64,
regex, syntect, unicode-width), the call stands in a small trusted wrapper
whose contract says what the crate's source shows; everything around it is
verified.

## Not included

The SQLite index of session summaries (the `index.sqlite` writer and its
rebuild) is not part of this crate: the `rusqlite` crate it needs is not
among its dependencies. The summaries it stores are computed, and
verified, in `derived`; which events an incremental update takes is
`event_log::events_from_seq`.

The on-disk event store (`events.jsonl` and its appender) stores an event
envelope type whose definition this project does not have, so the store
itself is left out. Its numbering is here and
verified: `event_log` finds the last event's line, gives the next number,
and refuses an event without one.
