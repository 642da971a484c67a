# cf

Analysis helpers for the obfuscated JavaScript of a browser challenge:
string-table recovery, cutting out and classifying the opcodes of its
switch-based VM, XTEA payload detection, response-body decoding, and the
request profile of the client.

- `src/` is the library, verified with Verus. Each module states its
  behaviour over spec functions (`Seq`, `Map`, views of its types); where an
  outside crate does the work (`regex`, `base64`, `byteorder`, `flate2`,
  `brotli`, `oxc_allocator`, `oxc_ast`, `oxc_parser`, `rayon`), a small trusted
  wrapper makes the call and its contract says what the crate's documentation
  promises, or names the result. Parsing a script with oxc into the
  library's syntax model (`js_parse`) is such a named result.
- `app/` is the command-line opcode mapper around the library: file and
  network input, the XTEA rewrite of an oxc tree (a `VisitMut` pass), the
  thread pool, and JSON output.
- `tests/` exercises the library on concrete inputs.
