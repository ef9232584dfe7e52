# cecile_vm

A virtual machine for compiled programs of the Cecile language: a stack
machine with closures, structs, arrays and a collector, verified with Verus.

- `src/semantics.rs` says what each instruction does, as functions on the state
  of a machine.
- `src/vm/` is the machine. Each of its functions is proved to do what the
  function of the same instruction in `semantics.rs` says.
- `src/heap.rs` is the heap with its collector; `src/object.rs`, `src/value.rs`,
  `src/number.rs` and `src/error.rs` are what it holds and what can go wrong.
- `src/table.rs`, `src/frame.rs` and `src/random.rs` hold the calls into
  `hashbrown`, `arrayvec` and `rand`.
- `src/laws/` states what holds of the machine as a whole.
- `app/` runs the machine: it prints, reads the clock and computes with doubles
  where an instruction asks for that.

An instruction that means nothing where it stands, such as a jump out of the
code or a pop from an empty stack, answers `Step::Stuck`.
