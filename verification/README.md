# opencode

A local-first coding agent that talks to any OpenAI-compatible chat
endpoint, written as a Verus library with a thin command-line program
around it.

- `src/` is the verified library: retrieval (tokenizer, chunking), the repo
  manifest (summaries, tree rendering), the symbol index (tree-sitter
  extraction, filing, lookups), the chat tools (what each call means and
  what text goes back), the agents' prompts and checks (JSON extraction,
  path safety, fence stripping, the debug loop's file hints), and small
  pieces of configuration. Every public function states its result over a
  model made of `Seq`s; the proof functions named `lemma_*` state the laws
  that tie functions together.
- `app/` holds what Verus does not check: `main`, clap, the sqlite cache,
  HTTP to the model server, walks of the file system, terminal I/O, and
  the BM25/embedding scoring, which computes in floating point.
- `tests/` runs the library on concrete inputs.
