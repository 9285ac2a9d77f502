# trm_omega

The core of a recursive reasoning engine: a small transformer or MLP-Mixer that is applied over
and over to one state, with two-bit ternary weights for deployment.

The library under `src/` is verified with Verus. It holds

- the ternary packing (`quantize`), the reference kernels (`kernel_ref`) and the choice between a
  device and those kernels (`kernel_dispatch`);
- the shared network: how it is configured, built, packed and run (`network`, `forward`, `preset`),
  and what holds of its packed passes: they repeat (`repeat`), and where arithmetic does not round
  they give what the unpacked weights give (`parity`, `network_parity`);
- the bundle format, from bytes to tensors and back (`trmq10`, `wire`, `named`);
- puzzles and their files (`data`), evaluation (`task_eval`) and training (`train`);
- the survey of the machine and the toolkit installation as state machines (`setup`).

Numbers enter through the `Arith` trait, tensors and devices through `TensorMath`, `LossMath`,
`Backprop`, `Pass`, `Layers`, `Bank` and `Host`, models and puzzle variants through `Evaluator`,
`Solver` and `Augmenter`. None of these promises anything: the contracts say which operation is
applied to which values, in which order, and what follows from each answer.

`app/` ties the library to candle, clap, serde and the file system. `tests/` runs the library on
concrete values.
