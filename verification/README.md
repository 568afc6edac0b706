# hypura

The core of the Hypura inference server, verified with Verus. Hypura serves
local GGUF models behind the Ollama and OpenAI interfaces, loads them on demand
and reads the tool calls that they write.

## Layout

`src/` is the library. Its functions carry contracts that Verus proves, all but
those of the wrappers named under "What is taken on trust".

- `text`, `number`, `path`, `ids`: text, numbers, file paths and identifiers
- `json`: JSON values, read and written by `serde_json`
- `call_syntax`, `blocks`, `tool_calls`, `cleaning`: tool calls in what a model
  wrote, and the text around them
- `parsing_laws`: what holds of that splitting as a whole
- `chat`: prompts in ChatML and in the Harmony format
- `streaming`: which parts of an answer are sent while it is being written
- `registry`, `manifest`: the models on disk, and which one a request means
- `manager`: the model in memory, and when another takes its place
- `routes`, `openai`, `ollama_types`, `openai_types`: requests and answers
- `cli`: what the commands print

`app/` is ordinary Rust around it: sockets, files, threads, and the JSON forms
of requests and answers. The inference engine is supplied as an implementation
of `engine::Engine`.

`tests/` runs the library on concrete values.

## What is taken on trust

Calls into `serde_json` and a few calls into the standard library stand behind
small wrappers in `json`, `call_syntax`, `chat`, `ids` and `text`. Their contracts
are believed, not proved; the one that reads the clock promises nothing of its
result. What a JSON text holds is given a name (`json_node`). One fact is claimed
of it: an object gives back each member as it was written, where the member's own
text is read as it is written. Functions that decide on values read from JSON take
these values as arguments and are proved for all of them.
