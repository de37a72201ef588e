# gguf_rs

A verified decoder for the headers of GGUF (GGML Universal Format) files: key-value metadata and
tensor information, in versions 1, 2 and 3 and both byte orders.

- `src/` is the library. `grammar.rs` gives the format as functions from bytes to contents, and
  `progress.rs` how far a read gets; the readers (`reader.rs`, `metadata.rs`, `tensors.rs`,
  `model.rs`, `container.rs`) are proved to agree with them on every input, refused ones included.
  `open.rs` decides what follows from what is found at a path, without touching a file. `laws/`
  holds what is proved of all headers: that they are read back from their bytes in either byte
  order, that tensor data does not overlap, that input may arrive in pieces, that nothing behind
  the header is read.
- `app/` is the ordinary Rust around it: readers, paths, memory maps, tokio, JSON values.
- `tests/` runs the library.
