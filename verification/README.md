# exile-harness

A tool-grounded harness for Path of Exile 1 and 2, verified with Verus. Instead
of training game knowledge into a model, the harness gives the model tools: live
league and economy data, wiki retrieval, and Path of Building for build math.
The model reasons; the harness knows.

- `src/` is the library: everything that decides, with contracts that Verus
  proves. Its parts are the agent loop and its event stream (`session`,
  `event`, `tool`), the model protocol (`openai`, `stream`, `prompted`, `idle`,
  `config`), the tools (`league`, `price`, `wiki`, `pob`) with what they read
  and write (`args`, `written`, `json`, `html`, `codes`, `build_xml`,
  `repeated`, `engine`, `http`, `toolkit`, `text`), and the decisions of the programs (`cli`, `commands`,
  `archive`, `eval`).
- `tests/` runs the library on concrete values.
- `app/` is the programs: sockets, files, child processes and the terminal. One
  binary serves them all by the name it is started under: `exile`,
  `exile-league`, `exile-ninja`, `exile-wiki`, `exile-pob`, `exile-eval`.

Proof functions named `law_...` state what holds of the library as a whole: a
turn ends once, tool calls and outcomes pair up, what is streamed is what is
answered, a build of one game never reaches the other's engine, results carry
their source and time, share codes and percent-encoding read back.

What the proofs take on trust is marked `external_body` or
`assume_specification`: calls into `serde_json`, `serde`, `flate2`, `jiff` and std, each
with a comment that says what is claimed of it.

At run time the programs read `exile.toml` (model profiles), `data/` (datasets
of concluded leagues), `lua/adapter.lua` (the engine adapter) and, for the
eval, `eval/questions.toml`. Environment variables that move them:
`EXILE_DATA_DIR`, `EXILE_POB_ADAPTER`, `EXILE_POB_ROOT`, `EXILE_LUAJIT`,
`EXILE_WIKI_CACHE_DIR`, `EXILE_QUESTIONS`.
