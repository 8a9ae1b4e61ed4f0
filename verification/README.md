# skwd-lens

A local semantic image search: it keeps an index of image embeddings, answers queries in natural
language, and manages the model packs that both need.

- `src/` is the library. Every item of it is verified with Verus: the index format, index builds,
  query tokens, ranking, the command line, and the ledger of installed model packs. Floating-point
  values pass through it as their bit patterns.
- `app/` is the program around the library: files, processes, standard streams, the ONNX runtime,
  JSON records, and the arithmetic on floating-point numbers.
- `tests/` runs the library on concrete values.

What the library takes on trust are the contracts of the functions it calls in other crates and in
the standard library. Each stands in `src/` with a comment that says what it claims: the tokenizers
and lower-casing in `tokens.rs`, cropping and resizing in `pixels.rs`, SHA-256 in
`pack/contents.rs`, UTF-8 decoding and appending a character in `text.rs`, the character of a code in
`json.rs`, and requests for memory in `memory.rs`.

The tokenizers rely on the files that they are given. `tokenizer_file.rs` and `piece_model.rs` say
which files and queries they can work with, and the library hands them no others.
