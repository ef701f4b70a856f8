# twotetrated

The front end of a compiler for "twotetrated", a small imperative language for
the 16-bit TinyVM: the syntax tree (`src/ast.rs`) and the parser
(`src/parser.rs`), verified with Verus.

Each grammar rule (comment, whitespace, word, hexadecimal number, number,
expression) is a function on the UTF-8 bytes of the source text. A spec
function states what the rule does at a position, and the contract of the
rule's function ties its result and the new position of the stream to it.
`src/laws.rs` proves properties of the grammar that follow from the rules,
such as the shape of the numbers that are accepted.

Reports of failed parses (the text, a caret under the failure, the notes) are
rendered by winnow, which the library calls for them.
