# hazardflow

The core of the HazardFlow hardware compiler, written in Verus: the types of hardware
interfaces and values, the pieces that generate Verilog modules from them, and passes over
the Verilog IR. Functions in `src/` carry contracts that Verus proves; the few that call the
standard library or outside crates directly are small wrappers whose contracts are trusted.

## Layout

- `src/compiler/` — value types (`prelude`), interfaces and their endpoints (`interface`,
  `endpoint`, `primitives`), naming of generated signals (`naming`), port and wire
  generation (`ports`, `wiring`, `module_wiring`, `seq_wiring`), the wiring of submodule calls
  into the module graph (`module_graph`), composite expressions and
  logic values (`codegen`, `literal`), the table of pure expressions with their widths and
  types (`expr`), pieces of the translation of expressions into statements (`literal`
  for constants, `expr_gen` for temporaries, assignments, operators, members, variables,
  structs, zips, conditionals and case analyses, `system_task` for display and assertion
  tasks; the dispatch over all expression kinds is not here), and the assembly of Verilog modules (`virgen`).
- `src/vir/` — the Verilog IR (`ir`), renaming (`utils`), inlining of `always` blocks
  (`opt`), detection of combinational loops (`analysis`) and the integration of modules.
- `src/utils/` — arithmetic on widths, strings and attributes.
- `app/` — what stays outside the proofs: the error type with its messages, and writing
  generated Verilog to files.
- `tests/` — tests on concrete values.

Laws that relate several functions stand in `src/` as public proof functions whose names
begin with `lemma_`, next to the functions they speak of.
