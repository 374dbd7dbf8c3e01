# acowork_runtime

The runtime of an agent: it keeps an agent's conversations, builds the requests
to a model provider, reads what the provider streams back, and answers what a
gateway asks of it.

The logic is a library in `src/`, written in Verus: each function states in its
contract what it returns, and what holds of several functions together stands in
public proof functions beside them.

- `conversation/`: the JSONL file of a session: its entries and its first line,
  how they are written and read back, pages of it (and how much of its end they
  take), what is new in it, and the list of sessions.
- `agent/`: the history that a model is given, how it is trimmed, cleaned and
  compacted; the state of a session; what each message to a session changes;
  how a history is rebuilt from a file.
- `providers/`: the requests and replies of OpenAI-compatible providers, streamed
  or not, thinking tags in what they stream, and what is done when one fails.
- `gateway/`: where the intents of the gateway lead, what it is answered, what it
  configures, and questions about the agent's memory.
- `json.rs`, `text.rs`, `bytes.rs`, `list.rs`, `paths.rs`, `ids.rs`: what these
  rest on.

What the library takes from other crates (JSON text, command lines, clocks,
identifiers, chance) stands behind small functions whose contracts are trusted;
each says what it claims of the crate.

`app/` is the program around the library: files, HTTP, the log and the terminal.
`tests/` runs the library.
