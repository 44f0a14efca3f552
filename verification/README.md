# crosscut

Crosscut is a programming language and development environment built around
interactive programming: changing a program while it runs. This crate holds
its core, verified with Verus. The functions in `src/` carry contracts that
Verus proves, but for a few small wrappers around calls into `petgraph`,
`udigest` and the standard library (in `src/compiler/graph.rs`,
`src/compiler/hash.rs` and `src/text.rs`), whose contracts state what those
crates document and are trusted.

## Layout

- `src/compiler/`: the compiler's front end and analyses. Tokenizing and
  parsing (the parser succeeds exactly on the token sequences of well-formed
  syntax trees), resolving bindings and function calls, ordering functions
  into clusters of mutual recursion (through `petgraph`), finding divergent
  functions, marking recursive calls, detecting changes between two versions
  of the code (functions are identified by their `blake3` hash, computed with
  `udigest`), the source map between code and instructions, and the
  generation of instructions and bytecode from code fragments
  (`instructions.rs`, `bytecode.rs`).
- `src/program.rs`, `src/data_stack.rs`, `src/builtins.rs`: the runtime: a
  data stack, the builtin functions, an evaluator and breakpoints.
- `src/debugger.rs`: the debugger's model: what it shows of an expression,
  and how it turns the user's actions into commands for the runtime.
- `src/language.rs`, `src/editor.rs`, `src/game_engine.rs`: a small language
  instance with an editor and a game engine that runs its code.
- `src/nodes.rs`, `src/token.rs`, `src/packages.rs`: content-addressed
  syntax nodes and the paths that identify them, and the compilation of an
  editor token into a node: a keyword, a provided function, a literal, or an
  error.
- `src/builds.rs`, `src/display.rs`, `src/platform.rs`: the decisions of
  rebuilding a game when its code changes, of the loop that runs a program
  frame by frame and draws its memory tiles, and of the loop that runs a
  script in the browser.
- `app/main.rs`: a program that builds a game from its code on disk and
  rebuilds it on every change.
- `tests/`: tests of the library.

The contracts that involve `blake3` and `petgraph` rest on specifications of
those crates' functions, stated where they are called.
