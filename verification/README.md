# opy_rs

Verified parts of a compiler from OPY, a Python-like language for
Overwatch Workshop scripts, to Workshop text. The library is written in
Verus: public functions state their results in `requires`/`ensures` over
spec functions, and the laws that relate several functions are proof
functions. The lowering of an OPY program to a Workshop program is
not part of the library as a whole; the stages before and after it are,
and so are the steps of it listed below.

## Layout

- `src/hir.rs`: the resolved OPY program the compiler consumes.
- `src/macros.rs`, `src/macro_program.rs`, `src/macro_free.rs`,
  `src/relocate.rs`: macro expansion, with span relocation, and the law that
  an expansion that succeeds leaves no macro call or parameter.
- `src/settings.rs`: constants in the custom game settings.
- `src/implicit.rs`, `src/implicit_program.rs`, `src/allocation.rs`: the
  default Workshop variables a program uses without declaring them, and the
  allocation of variable slots.
- `src/control.rs`, `src/expr_queries.rs`, `src/lowering_queries.rs`,
  `src/directives.rs`: questions the lowering asks of statements,
  expressions, rules and directives.
- `src/text.rs`, `src/format_chunks.rs`, `src/chunk_restore.rs`,
  `src/rule_names.rs`, `src/debug_text.rs`: text transformations of the
  emitted Workshop, and the law that the chunks of a format string give
  the string back.
- `src/declaration_sections.rs`, `src/element_counts.rs`,
  `src/workshop_text.rs`: post-processing of emitted Workshop text.
- `src/pipeline.rs`: the stages of a compilation before and after the
  lowering, and `src/translation_files.rs`: the gettext files of a
  translated program.
- `src/integration.rs`, `src/manifest.rs`, `src/diagnostics.rs`: the
  manifest/catalog cross-check and the compile report.
- `src/reconstruction.rs`: the checks that decide whether a Workshop
  program can be written back as OPY, the layout of its rules, and OPY
  string literals.
- `src/compression.rs`: the text of compressed array literals.
- `src/argument_origins.rs`, `src/declaration_plan.rs`,
  `src/declaration_slots.rs`, `src/loop_plan.rs`: steps of the lowering
  that stand on their own: the source spans of the arguments of the
  actions a statement lowers to, refusing repeated declaration names,
  placing declarations in slots around the implicit and helper variables,
  ordering declaration tables by slot, and taking a loop body apart at its
  `continue`s and `goto`s.
- `app/`: serialization of the compile report and the floating-point
  parts (compile-time folding, number spelling, the rewrites of Workshop
  values, the numbers of compressed arrays), which are not verified.

The `workshop-rs` crate is called from the library through trusted
wrappers. Where a call's result is a function of its arguments, the
wrapper's contract equates it with a named spec function without a body
(such as `workshop_emission` or `catalog_declares`), and the library's
contracts are stated over those names. Loading the catalog that
`workshop-rs` embeds depends on no argument, so nothing is stated of that
outcome; `integration::check_compiler_contract` takes the loaded catalog
and manifest and states exactly what follows from each. Each wrapper's doc comment says what its contract claims.
