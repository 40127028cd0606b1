# agentyk

The verified core of an agent library: the wire protocols of the model
services, the turn loop, the workspace tools, hooks, the event log, and clients
for tool servers with their login. What decides or computes is in `src/` and
carries a contract that Verus proves. The exception is floating point: the
metrics of the evaluation study, its prices and two of its scorers are in
`app/`.

| Where | What |
| --- | --- |
| `src/drivers/` | request bodies, responses and streams of the model services |
| `src/filesystem/` | workspaces and the tools that work in them |
| `src/mcp/` | the tool server protocol, over a process or over HTTP, and OAuth |
| `src/hooks.rs` | hooks that run in the host's shell |
| `src/jsonl_log.rs` | the event log: numbering, conflicts, pages |
| `src/in_process.rs` | the turn loop, one step at a time |
| `src/agent.rs`, `src/session.rs` | composing an agent, dispatching commands |
| `src/evals/` | the evaluation study: cases, observation and scoring |
| `src/json.rs`, `src/message.rs`, `src/text.rs` | the values all of it speaks of |
| `app/` | sockets, processes, files, clocks and serde around the library |
| `tests/` | what the library does on concrete values |

Contracts are stated over ghost views: each type `T` has a `TView`, and each
function says what its result's view is. The properties that span functions are
public proof functions beside what they speak of, for instance
`streaming_gives_the_same_answer`, `same_body_streams_alike`,
`denied_call_never_runs`, `finished_search_found_everything` and
`secrets_do_not_show`.

What is believed and not proved is small: the calls into `serde_json`, `regex`,
`reqwest::Url`, `base64`, `sha2`, `rand`, `chrono` and a few of `std`, each
behind a function whose comment names the call and says what is claimed of it.
