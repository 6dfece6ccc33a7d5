# pycn

PyCN is Python written with Chinese keywords, operators and built-in names. This crate
translates PyCN source to Python source, and the `pycn` command runs the result in an
embedded Python interpreter.

The library (`src/`) is written in Verus and verified:

- `token`, `scan`, `lexer`: the tokens of a source text. Each line is read by longest
  match among the token spellings and patterns; indentation opens and closes levels.
  Chinese numerals are converted to digits with the `chinese2digits` crate, within the
  range in which its `i32` arithmetic is shown to stay in bounds; a numeral outside it
  stays a `ChineseNumber` token, and no translation is given for such a program.
- `grammar`, `parser`: the recursive-descent parser, stated as spec functions over the
  token sequence and implemented to match them exactly.
- `ast`, `emit`: the syntax tree and its Python text.
- `imports`, `bootstrap`: which `.pycn` modules a program imports, and the rules for
  finding, downloading and unpacking the Python standard library.

`app/` holds what cannot be verified: the command line, file and network I/O, the Python
interpreter, and the C, WebAssembly and HTTP entry points.
