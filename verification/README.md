# rmreader

Turns a Readwise Reader library and feed into reading PDFs for a reMarkable
tablet, and reads the tablet's annotations back into Readwise.

- `src/` is the library, verified with Verus: request shapes and retry policy
  for the Readwise API, merging of listed documents, HTML sanitising and image
  embedding, the HTML-to-Typst conversion, the document source, page ranges
  and the embedded manifest, read-back classification of highlights and action
  marks, configuration checks, cache keys and expiry, and the command lines and
  pairing checks of the rmapi deploy backend.
- `app/` is the program around it: the command line, file and network I/O,
  TOML and JSON decoding, PDF compilation and post-processing, page geometry.
- `tests/` exercises the library with the real outside crates linked.
