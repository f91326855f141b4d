# sosaku

Evaluates filter expressions such as

    test.var == 5 && startsWith(test.var2, 'hello') && test.nested.var3[1] == 2

against JSON-like bindings. The library is written in Verus: each function
carries a contract, and Verus proves that the code meets it.

## Layout

- `src/grammar.rs`, `src/lexer.rs`, `src/parser.rs`: the expression
  language, first as a grammar of spec functions over characters, then as
  the parser that follows it.
- `src/semantics.rs`: what evaluation gives, as a recursive definition and
  as the stack machine that `src/interpreter.rs` runs.
- `src/value.rs`, `src/var.rs`, `src/env.rs`, `src/functions.rs`: values,
  variable accesses, environments and the function table.
- `src/builtins.rs`, `src/display.rs`: the built-in functions and the text
  of values.
- `src/json.rs`: JSON and YAML documents and the values made from them.
- `src/laws.rs`, `src/roundtrip.rs`: laws of evaluation, of objects and
  of the text of variable accesses, proved.
- `src/cli.rs`: the `NAME=VALUE` arguments of the command line.
- `src/float.rs`: binary64 floats held by their bits.
- `app/`: the command-line program around the library.
