# storytell

A verified library for Storytell, a language for writing interactive stories.

- `src/parser`: the story parser (lexer, input, markup and block grammar). Each parsing function is tied to a spec function of the bytes that says which blocks and diagnostics it gives.
- `src/js_parser`: the tokenizer and the parser for inline JavaScript expressions, with the same kind of specs.
- `src/compiler`: collecting variables from inline JavaScript, rebuilding JavaScript with prefixed names, the path tree of a story, the JSON and JavaScript compilers, and the host that keeps a project's files and directories.
- `src/projects.rs`, `src/deserialization.rs`: projects and their metadata, and the JSON written for the front end.
- `app/`: the command loop, and the reading and writing of files on disk.
- `tests/`: the tests of the library.
