# pag

The front end of a parser generator, verified with Verus.

A grammar file has a lexer part and a parser part. The library turns the parse
tree of such a file into its surface syntax, decodes the escape sequences of its
quoted characters, translates the parser part into core parser rules (with a
symbol table of rule names and a report of every undefined or repeated name), and
keeps the typing context of the grammar type checker.

Layout:

- `src/escape.rs`: decoding of escape sequences (`unescape`, `unescape_qouted`).
- `src/tree.rs`: spans, the surface syntax tree and its mathematical view.
- `src/surface.rs`: the parse tree, `try_parse_surface_syntax` (which says where
  the construction gives up) and `parse_surface_syntax`.
- `src/core_syntax.rs`: symbols, core terms, parser rules and their errors.
- `src/syntax.rs`: the symbol table, `try_construct_parser` (which says where the
  translation gives up) and `construct_parser`; the token table `LexerDatabase`.
- `src/type_context.rs`: `TypeContext` and its scoping operations.
- `app/lib.rs`: the glue to pest (its parse trees and operator-precedence parser).
- `tests/`: tests of the library on concrete inputs.
