# minimad

A small markdown parser, verified with Verus. A text is parsed line by line
into `Text { lines }`; each line is a code fence, a horizontal rule, or a
composite (paragraph, header, list item, code line or quote) made of styled
compounds (bold, italic, inline code, strikeout). List items nest as in
CommonMark: an item nests under the innermost open list whose content column
its marker reaches, and tabs count as four columns.

Layout:

- `src/chars.rs`: character classes, line splitting and byte-exact slicing
  of `str`s.
- `src/clean.rs`: removal of the common indentation of a text written
  indented in source code.
- `src/text.rs`: the parsed types and their views.
- `src/parser/options.rs`: parsing options.
- `src/parser/line_parser.rs`: the parse of one line and of its inline
  styles.
- `src/parser/text_parser.rs`: list markers, quote markers, the container
  state and the parse of a whole text.
- `src/parser/properties.rs`: properties proved of every parse.

Every function states its result as a spec function in its `ensures`;
`parse` and `parse_text` give the lines of the text as `spec_parse`.
