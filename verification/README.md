# trove

A small compiler for the trove language, verified with Verus.

The library (`src/`) holds the compiler's phases, each with a contract over a
mathematical model of its input and output:

- `lex`: the lexer, from program text to tokens (`lex_from`);
- `parse`: the syntax tree and the recursive-descent parser (`p_program`);
- `typecheck`: types, the scoped symbol table and the type checker (`tc_ast`);
- `analyser`: the escape analysis that moves referenced values to the heap
  (`analysed`);
- `generator`: code blocks and the C++ generator (`gen`, `generation`);
- `text`: character classes and decimal numerals.

`app/` is the command-line driver: it reads the program file, runs the phases,
writes the C++ file, calls `clang++` and `otool`, and shows a small module
built with LLVM.
