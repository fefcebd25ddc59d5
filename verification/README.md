# radia

Photon shielding with the point kernel method.  The integer and symbolic
core of the engine is a verified library (`src/`); the floating-point
physics and the program around it are ordinary Rust (`app/`).

## Library (`src/`)

- `csg` — flat CSG programs in Reverse Polish Notation: well-formedness
  checks, evaluation of a program on a 64-bit membership mask, the index
  bookkeeping of primitives, and the lookup of the material at a point.
- `csg_parser`, `expr`, `infix` — infix CSG expressions (`!`, `*`, `+`, `-`,
  parentheses) tokenized and translated to RPN by the shunting-yard
  algorithm, with the proof that an expression read with the operators'
  precedence compiles to a program that computes its meaning.
- `world` — the input world: nested set operations over named primitives
  compiled to RPN programs, unused primitives left out, ids assigned in
  order.
- `config`, `csg_tree` — the same built as CSG trees (operations folded from
  the left) and their point containment.
- `names` — string-keyed maps and sets with a `Map`/`Set` view.
- `input`, `atomic_number`, `gui`, `report`, `buildup`, `material` — input
  consistency rules, element symbols, editor validation messages and the
  plain data types of the report.

## Program (`app/`)

Command line, YAML/JSON reading with serde and garde, primitive geometry,
sources, attenuation and buildup data, the dose-rate kernel and the
Markdown report.
