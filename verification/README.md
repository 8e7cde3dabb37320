# cyclang

The front end of Cyclang, a small programming language, as a Verus-verified
library, with a command line and REPL around it.

`src/` (verified):

- `lexer`, `grammar`, `parser`: the tokens, the grammar as spec functions over
  tokens, and the parser proved to compute it (`parse_cyclo_program`).
- `ast`, `typed_ast`: the syntax trees and their mathematical models.
- `desugar`: `for` loops rewritten into `let` + `while`.
- `type_resolver`: the scoped symbol table and the type resolver.
- `semantic`: whole-program validation rules and the semantic walk.
- `compiler`: the checks that precede code generation, and the options.
- `target`: the code generation targets.
- `binary_plan`: which code a binary operation gets from its operator and
  operand types, or the message that refuses it.
- `ir_text`, `display`, `highlight`, `repl`: what the REPL shows and decides:
  function definitions cut out of LLVM IR, the tree drawing of a program,
  colour highlighting, command parsing and the remembered inputs.
- `loop_steps`, `positions`: facts about what the parser produces: every
  parsed `for` loop steps by one, tokens are slices of the text in order, and
  parse errors point into the text.
- `text`: character-sequence utilities.

`app/` (ordinary Rust): `main`, argument handling, the REPL loop with
rustyline, the external `opt`/`llc` tools, and LLVM code generation.
