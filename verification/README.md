# bengal

The verified core of the Bengal compiler, written in Verus.

`src/` is the library. Every function in it carries a `requires`/`ensures`
contract that Verus proves:

- `lexer`: the tokenizer, specified by a reference scanner (`lex`).
- `ast`, `monomorphize`: the syntax tree and the specialization of generic
  functions and structs on it, with the call sites rewritten to the
  specialized names.
- `bir/`: the intermediate representation (BIR), its printer, the search for
  generic instances (`mono`), constant folding and dead-literal elimination
  (`optimize`), the checks on struct layouts made before lowering
  (`lowering`), and the lowering state with the control-flow shapes it builds
  for `if`/`else`, `&&`, `||`, `while`, `break` and `continue`
  (`lower_state`), the walk over expressions, statements and function bodies
  that drives those steps (`lower_walk`), and the lowering of a whole program
  or module (`lower_program`, `lower_module` in `lower_program`).
- `codegen/`: what the back end decides before emitting code: generic
  resolution, struct layouts, value types, and the selection of arithmetic,
  comparison, cast and call forms.
- `interface`: module interfaces, their text form and the binary file header.
- `mangle`, `package`, `cli`, `error`, `text`: symbol names, module paths,
  command-line values, errors and the diagnostic context, text helpers.

`app/` is the `bengal` command: argument handling, files, serialization and
diagnostics rendering, which call into the library.

`tests/` runs the library on concrete inputs.

The walk covers expressions, statements and functions without struct
values: a program that builds a struct, reads or assigns a field, uses `self`
or calls a method is outside the contract of `lower_program` and
`lower_module` (`program_lowerable` says exactly which programs are inside).

The parser and the semantic analysis are not part of this crate; the
lowering takes their output (a `Program` and a `SemanticInfo`) as values, and
the command stops after lexing.
