# forcefield_gpu

Force-directed graph layout with the forces of d3-force, as compute passes on a
GPU, with the `forcefield` crate on the CPU as fallback. The same configuration
builds either backend.

```rust
let config = Config::default()
    .force("charge", ForceSpec::many_body(number(-30.0)))
    .force("link", ForceSpec::link(vec![(0, 1), (1, 2)]))
    .force("center", ForceSpec::center(number(0.0), number(0.0)));
let mut sim = Simulation::new(&nodes, &config); // GPU if present, else CPU
sim.run(300);
let xy = sim.positions();
```

`src/` is the host side of both backends, written and proved in Verus. `app/`
attaches a device, the CPU engine and single-precision arithmetic to it.

| module | what it holds |
|---|---|
| `model` | configurations: parameters, forces, initial nodes |
| `number` | single-precision numbers as bit patterns, and formulas over them |
| `graph` | link lists, degrees, compressed adjacency |
| `plan` | which configurations the GPU accepts, and what each one packs |
| `bytes` | words, and the bytes they are sent as |
| `gpu` | the GPU simulation: uploads, ticks, runs, pins, read-back |
| `cpu` | what the CPU engine is given |
| `auto` | one simulation over both backends |
| `adapter` | adapters, devices, errors |
| `laws` | what holds of the library as a whole |
| `session` | what holds of whole sequences of calls, of simulations that share a device, and of pins |
| `rounding` | what holds on a host that computes in single precision |

The library does no floating-point arithmetic. Where a number has to be computed,
it says so with a formula (`Scalar`), and the host evaluates it. Buffers, commands
and parameters are exact: their contracts say, word for word, what the device gets.

## What is left to the device and the engine

- The device works in single precision, the CPU engine in double precision.
- Many-body is exact pairwise on the device; the engine honours `theta`.
- Links and collisions are gathered per node from a snapshot of the velocities on
  the device, where the engine updates pairs one after the other. Collisions get one
  extra sweep on the device.
