# TriVM, verified

A balanced-ternary virtual machine and its assembler, written in Verus.

- `src/trit.rs`, `src/tryte.rs`: the trit (-1, 0, 1) and the six-trit tryte
  (-364..=364), with their arithmetic, bit codes and text form.
- `src/instruction.rs`: the 12-trit instruction set, encoding and decoding.
- `src/vm.rs`: the machine (eight registers, 3^10 trytes of memory), one step
  and a run, described by `step_spec` and `run_spec`.
- `src/assembler/`: lexer, parser and code generator for `.tri` sources;
  `spec_assemble` says what a source assembles to. The code generator keeps
  its labels in a vector of (name, address) pairs searched from the end;
  a label defined twice is refused first, so each name has one address.
- `src/tribin.rs`: reading raw binary images (`.tribin`).
- `src/text.rs`: string helpers shared by the modules.
- `app/main.rs`: the command line program: reads a file, assembles or loads
  it, runs it and prints its output.
