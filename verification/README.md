# bootc_verified

The rules of a bootable container system, written in Rust and proved with Verus.

- `src/` is the library. Every function has a contract, and Verus proves it. The library decides and
  computes; it touches neither files nor processes.
- `tests/` runs the library on concrete values.
- `app/` is the command line around the library: it reads and writes files, runs commands and makes
  system calls.

Where work outside alternates with decisions, a type of the library holds where that work is: it says
what is to be done next and takes what came of it. `mount::assembly::Assembly`,
`mount::teardown::Teardown`, `tmt::disk::DiskPreparation` and `tmt::run::TestRun` are such types.
Functions whose names begin with `law_` state what holds of the library as a whole; for example that a
teardown whose record names a pending mount is accepted again after a crash, wherever it stopped, or
that no secret shows in the record of a run. A teardown that stops just between two mounts, when
nothing is pending, leaves a record that counts as incomplete and is refused.

What the library has from other crates (`serde_yaml`, `serde_json`, `composefs`,
`linux-kernel-cmdline`, `shlex`, `rand`) stands behind small functions, each with a comment on what is
believed of it.
