# truth

A compiler and decompiler for the scripts of STD files, which describe the backgrounds of stages
in the Touhou games, written in Rust and verified with Verus.

## Layout

- `src/pos.rs`, `src/pos/files.rs`: places in source files, and the text that diagnostics show.
- `src/script.rs`, `src/scope.rs`, `src/type_system.rs`: syntax trees, variables and types of
  scripts as they are compiled.
- `src/passes/`: folding of constants, resolution of variables, removal of loops, type checking.
- `src/instr.rs`, `src/instr/`: instructions. `lower.rs` makes them from statements, `labels.rs`
  and `registers.rs` put offsets and registers into them, `raise.rs` makes statements from them,
  and `format.rs` reads and writes them. `laws.rs`, `meaning.rs`, `shape.rs`, `temporaries.rs`
  and `round_trip.rs` prove what holds of the result.
- `src/std_file.rs`, `src/std_file/`: STD files, as bytes, as values and as scripts.
- `src/meta.rs`: the values that describe a file in its script.
- `src/ast.rs`, `src/resolve.rs`, `src/resolve/`, `src/context.rs`: the richer syntax trees, and
  what their names mean.
- `src/llir/`, `src/core_mapfiles.rs`: what instructions of each game do, and their arguments.
- `src/float32.rs`: floats as bits.
- `app/`: reading and writing files, printing diagnostics, and arithmetic on floats.

## What is proved

Every function states what it returns for all inputs. The functions named `law_...` state what
holds of several together. Among them:

- A file whose strings, counts and instructions fit the format (`std_valid`) is read back as it was
  written, but for the names of its objects, which become their numbers
  (`law_std_round_trip` in `src/std_file/binary.rs`).
- A missing end marker is told just when the last instruction ends at the end offset
  (`law_missing_end_marker_is_told` in `src/instr/format.rs`).
- A file whose header is text (`meta_valid`) and whose instructions can be told from their
  statements (`script_is_faithful`, `plain_script`) is the same file after it was decompiled and
  compiled, but for zeros at the end of instructions, which a script does not show
  (`law_decompiled_file_is_compiled_back` in `src/std_file/round_trip.rs`). Its bytes are the same, for
  early games if no instruction has more than three arguments
  (`law_recompiled_bytes_are_the_same_06` and `_10`).
- Folding constants does not change values
  (`law_simplify_keeps_value` in `src/passes/const_simplify.rs`).
- Lowered code assigns, compares and passes what well-typed statements say, where no variable has
  two names (`law_assignment_assigns`, `law_jump_compares` and `law_call_passes_values` in
  `src/instr/meaning.rs`).
- No two temporaries share a register (`law_temporaries_have_their_own_registers` in
  `src/instr/laws.rs`), and registers are found just when there are enough
  (`law_registers_are_found_iff_they_suffice` in `src/instr/temporaries.rs`).

Reading and writing take a list to which they add warnings; `app/` prints them.

Floats are compared, converted and stored as bits. Arithmetic on them is asked for: a pass that
needs a result fails with the operation, and runs again when it has been given the result.
