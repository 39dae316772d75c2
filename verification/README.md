# smol

An interpreter for a small language, written in Verus with its behaviour stated and
proved.

A program is a list of declarations (`fn` and `let`); running it runs the declarations
in order, then the body of `main`.

```text
fn add(a: int, b: int) int { return a + b; }
fn main() void { println add(2, 3); }
```

## Layout

- `src/token.rs`, `src/lexer.rs`: tokens and the lexer, specified by `lex_from`.
- `src/ast.rs`, `src/grammar.rs`, `src/parser.rs`: the syntax tree, the grammar as spec
  functions, and the recursive-descent parser proved to follow it.
- `src/value.rs`, `src/environ.rs`, `src/number.rs`: values, environments and the
  reading of integer literals.
- `src/semantics.rs`: what running a program means, over the models of the tree and the
  values; the laws of the language are proved there.
- `src/interpreter.rs`: the interpreter, proved to compute what `semantics.rs` states.
- `src/report.rs`, `src/format.rs`: the messages errors are reported with.
- `app/main.rs`: the command that reads a file, runs it and prints what it printed, with
  floating-point arithmetic on `f64`.

Floating-point numbers are held as the bits of an `f64`; the arithmetic on them is asked
of the caller, so that the library holds no floating-point code. A budget that the caller
gives bounds how deeply calls nest plus how many loop turns run around them: a call runs
its body with one unit less, and each loop turn with one unit less than the turn before.
