# elm_ast

A verified library for Elm syntax trees: the tree types, spans, a printer
that writes a module back as Elm source (a compact layout, and one that
follows elm-format), normalisation of documentation comments, and visitor
traits that walk a tree.

Layout of `src/`:

- `span.rs`, `node.rs` and the tree modules (`expr.rs`, `pattern.rs`,
  `type_annotation.rs`, `declaration.rs`, `import.rs`, `exposing.rs`,
  `module_header.rs`, `file.rs`, `literal.rs`, `comment.rs`): the syntax
  tree.
- `print/`: the printer. `mod.rs` holds the printer state and its model
  (`text`, `pretty`, indentation columns); each layout lives in its own
  file, with spec functions that state the text it writes.
- `print/doc/`: documentation comment normalisation (markdown, code
  examples, spacing), stated over sequences of characters. Elm code
  examples inside documentation comments are re-indented and spaced but
  not re-formatted: re-formatting them would need an Elm parser, which this
  crate does not have.
- `visit.rs`, `visit_mut.rs`: visitor traits. Each implementation states
  through `visits` (`visits_mut`) what one call does; the `walk_*`
  functions state, as a run of such steps, which calls they make and in
  what order. Only the leaf hooks have default bodies: a default body that
  calls a `walk_*` function recurses through the trait, which Verus does
  not accept, so an implementation writes those methods itself, usually as
  a call of the matching `walk_*` function.
- `sorting.rs`, `text.rs`: stable sorting by key and text helpers.

`tests/` holds executable tests of the printer, the documentation
normalisation and the visitors.
