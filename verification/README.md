# RustyJ

A compiler for MiniJava, a small subset of Java, to JVM class files, with
its logic verified by Verus.

- `src/parser`: the lexer (`lexer.rs`), the grammar as spec functions
  (`grammar.rs`), the parser proved to compute it (`parser.rs`), and the
  proof that what it reads carries no type annotations (`plain.rs`).
- `src/typechecker`: the typing rules as spec functions (`spec.rs`),
  including the checks that every local variable is assigned before it is
  read and that each method's body returns its declared type, the checker proved against them (`typechecker.rs`), and the laws
  that typing only adds annotations and resolves every name (`erase.rs`).
- `src/codegen`: the constant pool, the instructions, the code of
  expressions and statements, stack map frames, relative jumps, and the
  class file layout (with a law that the stack map has one frame per
  location reached, at JVM offset deltas); `semantics.rs` runs instructions on an operand stack
  and proves that the code of an integer or boolean expression leaves the
  value that Java gives it, and `stmt_semantics.rs` proves that the code of
  blocks, declarations, assignments, `if` and `return` over such variables
  does what Java does; `loop_semantics.rs` does the same for a `while`
  loop whose body is such a statement.
- `src/text.rs`: how types, operators and classes are written out.
- `app/main.rs`: the command line program: reads a `.java` file and writes
  the `.class` file.

Usage: `rustyj <input_file> [<output_file>]`.
