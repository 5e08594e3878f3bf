# inheritance_tree

Reads a Rust source file written in a class-and-mixin style (each class a
module `_Name` inside a `_classes` module, its kind declared by a `TYPE`
static in a `vtable` module, its superclass by `type Super = ..`, its
interfaces by `impl HasImpl<I>`) and reports, for every module that holds a
`_classes` module, its classes, mixin instances and mixins.

Layout:

- `src/syntax.rs` parses the text with `syn` and reads the tree into the
  plain model of `src/source.rs`.
- `src/classify.rs` finds a class's kind, superclass and interfaces;
  `src/composite.rs` names mixin instances (`A_M1_M2`) from a supertype,
  using `regex` for the base class.
- `src/extract.rs` walks the modules and gathers `ModuleInfo` values
  (`src/info.rs`); `src/report.rs` renders them as text and counts them.
- `src/text.rs` holds the character-sequence operations, `src/laws.rs`
  the properties proved of the whole.
- `app/main.rs` reads `./test/run_e.rs`, writes `inheritance_tree.txt`
  and prints totals.
