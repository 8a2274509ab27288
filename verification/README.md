# stnx

The front and middle end of the Saturnite compiler, written in Verus: every
function under `src/` carries a contract that Verus proves.

## Layout

- `src/lexer/` scans source bytes into tokens (`tokenize`, `Lexer`), turns
  indentation into layout tokens and removes them again (`prepare`).
- `src/parser/` is the grammar of Saturnite: `grammar.rs` states it as
  functions over token sequences, `rules.rs` and `mod.rs` compute it, and
  `parse` returns exactly the items the grammar reads, or an error at the
  furthest token a rule failed on.
- `src/ast.rs` and `src/hir/` hold the syntax tree, the typed intermediate
  form, symbol interning, definition tables and lexical scopes.
- `src/mir/` lowers typed programs to control-flow graphs (`lower`),
  checks them (`verify`), folds constants (`opt`) and makes a copy of every
  generic function and struct per set of type arguments (`monomorphize`).
- `src/module/` names modules, resolves paths, finds import cycles, and
  discovers the modules of a program as a state machine (`discover`).
- `src/codegen/` chooses the platform linker, its arguments, and where
  external libraries are looked for.
- `src/config.rs`, `src/driver.rs`, `src/target.rs`: project settings,
  output paths, targets.

`app/` is the command-line program around the library: it reads files,
parses `saturn.toml` and runs the linker.  Its `check` command discovers
the modules of a program and lexes and parses each of them; there is no
type checker from syntax trees to the typed form here, so nothing in `app/`
builds typed programs, lowers them or generates code.  Code generation
to LLVM (through the inkwell crate) is not part of this crate: every
decision in it is a call of LLVM's IR builder, and much of it is
floating-point work.  Floating-point
constants are carried as their bit patterns; the constant folder hands
arithmetic and comparison on two of them to a folder that its caller
supplies.

## Checking

`tests/` exercises the library on concrete programs; the contracts are
checked by running Verus on `src/lib.rs`.
