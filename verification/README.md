# dotos

`dotos` reads DOTOS text into delimiter-balanced blocks with source spans,
answers structural queries about them, and carries a value codec
(`DotosDecode` / `DotosEncode`) for strings, fixed-width integers, booleans,
byte sequences, vectors, options, boxes and ordered maps. On top of the reader
sit a typed structural macro-node layer and a pretty printer.

The library is written in Verus. Every function in `src/` is verified against
its contract; the grammar the reader follows is stated as spec functions in
`src/grammar.rs`, and the reader is proved to compute it.

Layout:

- `src/grammar.rs`, `src/reader.rs`, `src/parser.rs`: the grammar, the reader
  that computes it, and the block queries.
- `src/layout.rs`: how a parsed document lies over its text (block count,
  span order and nesting, atom text as source slices).
- `src/structure.rs`: the packed first-two-level structure header.
- `src/codec.rs`, `src/collections.rs`, `src/ordered.rs`, `src/bytes.rs`,
  `src/strings.rs`, `src/expectation.rs`, `src/instance_schema.rs`: the value
  codec.
- `src/macros.rs`: patterns, structural variants and macro nodes.
- `src/shape.rs`: the `#[shape(...)]` and `#[nota(...)]` attribute vocabulary.
- `src/pretty.rs`: the readable projection.
- `src/round_trip.rs`: what the reader gives back of what the codec writes.
- `src/reflow.rs`: the pretty form reads back as the document it lays out,
  and laying it out again changes nothing.
- `app/`: the float codec and the rkyv archive forms, which stay outside the
  verified library.

Scope notes:

- Strings take the least-delimited form that carries them: bare (dotted
  chains included), a parenthesis for words separated by single spaces
  (`(schema owns strings)`), and curly-quoted text `“…”` for everything else
  (the grammar refuses the pipe forms `(|…|)`, so curly text takes their
  place). Reading accepts each form; a parenthesis or curly text around
  content that a lighter form carries is refused as non-canonical, except that
  curly text may also carry single-space-separated words.
- Curly text removes the indentation shared by the lines of multi-line
  content when it is read (the grammar does this for every curly block), so
  multi-line content whose lines share indentation does not read back
  unchanged; all other string content does.
- There are no derive macros here (no `NotaDecode`, `NotaEncode`,
  `StructuralMacroNode` or `NotaDecodeTraced` derives): the codec traits are
  implemented by hand, as the tests do for their own types. What the
  attribute vocabulary decides — which shape a variant's `#[shape(...)]`
  arguments name or why they name none, how many fields that shape carries,
  what it expects and its format text, and what a type's or a field's
  `#[nota(...)]` arguments set — is `src/shape.rs`, over a plain model of the
  arguments.
- Map keys are read as any one bare atom (`alpha`, `Alpha`, `/boot`, `1`).
  The contents and the text of an ordered map are stated for key types whose
  order Verus knows to obey the laws of an order (the integer types). For
  `String` keys the maps are read and written the same way, but what the map
  holds and the order its entries are written in are not stated.
- Floating-point values are read and written by `app/`, outside the verified
  library.
