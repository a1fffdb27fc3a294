# yarel

The core of a small scripting language toolkit, written in Verus: the
functions in `src/` are checked by the verifier against their contracts,
and nearly all of them state one.

## Layout

- `src/scanner.rs` — the tokenizer. The lexical grammar is written as
  mathematical functions over the source characters (`scan_token_spec`), and
  `Scanner::scan_token` is proved to produce exactly the token they describe,
  including string escapes, interpolation and error tokens.
- `src/parser.rs` — the token stream a compilation reads: error tokens are
  skipped and reported, one report per failure while the parser panics.
- `src/memory.rs` — a mark-and-sweep heap of numbered slots. `Heap::collect`
  is proved to free exactly the objects that no rooted object reaches.
- `src/chunk.rs`, `src/debug.rs` — bytecode instructions, their encoding and
  operand sizes, chunks, and the decoding of instructions for listings.
- `src/frontend.rs` — the compiler's front end: a Pratt parser that
  writes bytecode as it reads a script, with expressions, statements, loops,
  functions, closures and classes. Every step is proved to keep the
  compilation consistent, to write only after the code already there, and to
  terminate; jumps are proved to land where they should, and `finish`
  returns an error exactly when one was reported. Operands are written in a
  byte order passed in, the machine's for code this machine runs.
- `src/compiler.rs` — per-function compiler state: locals, scopes, captured
  variables (resolved through the stack of enclosing functions), jumps and
  loops, and the bytes emitted for them.
- `src/strings.rs` — the text methods of the language's string class
  (search, split, replace, byte indices of characters, construction from code
  points).
- `src/hash.rs`, `src/stack.rs`, `src/unsafe_ref_cell.rs`, `src/error.rs`,
  `src/vm.rs`, `src/text.rs` — hashing, a fixed-capacity stack, a borrow-tracking
  cell, error values and text helpers.
- `src/harness.rs`, `src/pattern.rs` — how the output of a test script is
  checked against the output it declares, with `[MEMADDR]` standing for a
  memory address (byte-level matching, or through regular expressions).
- `app/` — the command-line side: compiling a script from disk and printing
  its listing, finding test scripts on disk, and printing progress on the
  terminal. Running compiled code is left to a virtual machine outside this
  crate: its values are floating-point numbers.
- `tests/` — executable tests of the library.
