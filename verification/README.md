# Provisioner

The provisioner is the part of a relay chain node that assembles what a block author puts into the
inherent of a block: signed availability bitfields, backed parachain candidates and statements on
disputes.

- `src/` is the library, verified with Verus. It makes all decisions and does no input or output.
  `job.rs` holds the job that collects data and decides when requests are answered; `inherent.rs`,
  `selection.rs` and `disputes.rs` assemble the inherent data step by step; `bitfields.rs` and
  `candidates.rs` hold the single decisions; `runs.rs` says what whole runs come to. Bits are stored
  by the `bitvec` crate, behind the few functions of `bits.rs` whose contracts are trusted.
- `app/` runs the library in a node: it waits, asks the other subsystems, and sends.
- `tests/` runs the library on examples.

What holds in general is stated by the contracts and by the public proof functions whose names start
with `law_`.
