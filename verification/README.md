# kblnk

A command-line chat with a language model (`kb-vibe-cli`), and the small XML
parser it reads the model's answers with. The library in `src/` is written in
Verus: each public function carries a contract, and Verus proves the code
against it.

## Layout

- `src/text.rs` — character-level helpers (trimming, splitting, prefixes).
- `src/parser.rs`, `src/lexed.rs`, `src/error.rs` — the XML tokenizer, a
  state machine whose every step is specified (`spec_step`, `spec_lex`).
- `src/node.rs`, `src/document.rs` — the element tree, the tree builder
  (`spec_build`, `spec_parse`) and the pre-order walks over a document.
- `src/command.rs`, `src/chat.rs` — the chat's input language and the
  decisions of the chat loop.
- `src/chat_response.rs` — reading the model's streamed XML into responses.
- `src/message.rs`, `src/model.rs`, `src/conversation.rs` — messages, the
  conversation kept in memory, and what is sent to the model.
- `src/context.rs`, `src/token_counter.rs` — context files and the token
  budget they are held to.
- `src/config.rs`, `src/cli.rs`, `src/prompt.rs` — client settings, logging
  settings, completion and multi-line input.
- `app/` — the program around the library: terminal, files, logging, the
  model service.
- `tests/` — tests of the library.
