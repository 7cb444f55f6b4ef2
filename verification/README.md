# xparse

A scanner and recursive-descent checker for a small C-like language ("X"), with the
tokens rendered as a coloured XHTML page. The library is written in Verus; every function
in `src/` carries a contract that Verus proves.

- `token.rs`: tokens and their kinds.
- `character_stream.rs`: a stream of characters read from the front.
- `lexical.rs`: what scanning does, as spec functions, and laws about it.
- `scanner.rs`: the scanner, proved against `lexical.rs`.
- `grammar.rs`: the grammar, as spec functions over token texts and kinds.
- `parser.rs`: the parser, proved against `grammar.rs`; it also renders the page.
- `render.rs`: the page, as spec functions.
- `text.rs`: comparing strings, and the two calls into std that Verus takes on trust
  (`char::is_alphabetic` and `String::push`).

`app/main.rs` reads `./example1.x`, checks it and writes `output.xhtml`.
