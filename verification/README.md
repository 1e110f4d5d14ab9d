# lir

A verified toolchain for `lir/1`, a small language for data-processing pipelines
(`source | stage | ... | reduce`), and for the `lytr/0.1` bootstrap language built on it.

- `src/` is the library, verified with Verus: lexer and parser (`lex`, `parse`), type checker
  (`types`), reference interpreter (`interp`), canonical formatter (`format`), LLVM IR and
  WebAssembly text generation (`llvm_ir`, `llvm_text`, `wasm`), diagnostics (`error`), input
  arrays and command-line arguments (`input_parse`, `cli`), the JSON document of a program
  (`ast_json`), and the `lytr` language (`lytr/`). Each public function is specified over
  spec functions of its module.
- `src/laws.rs` and `src/roundtrip.rs` hold properties that span functions: what each stage
  does to a stream, the agreement between code generation's folded `take`/`drop` prefix and
  the interpreter, and that canonical text reads back to a program with the same text and
  stages that do the same. `src/plan_law.rs` shows that the code-generation plan of a program,
  evaluated over its source array, gives the interpreter's result, traps included, and
  `src/type_law.rs` that a program the checker accepts never reaches the interpreter's
  internal diagnostic. `src/lytr/laws.rs` shows that a LYTR program that passes the check never stops on a value
  of the wrong type, and `src/wasm.rs` that rewriting the module header twice is rewriting it
  once.
- `app/` is the command-line program: file and process I/O, environment variables, `clang`,
  and JSON through serde.
- `tests/` exercises the library on concrete programs.
