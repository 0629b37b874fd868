# creature_simulator

Evolves walking creatures: a Python genetic algorithm hands generations of
genomes to a pool of worker threads, each of which builds a physics world,
unpacks the genome into a creature's neural controller, simulates a rollout
and reports a fitness. A window can show one worker's simulation live.

## Layout

- `src/` — the verified core (Verus):
  - `blueprint` — a creature's body plan and the sizes of its controller
    (actions, observations, genome);
  - `creature` — which joints can be built, the degrees of freedom in
    controller order, and the layout of an observation;
  - `network` — the controller's genome length and its unpacking into layers;
  - `evaluation` — placing a generation's results back in genome order, the
    worker loop's decisions, the latest-frame cache of a drawn worker;
  - `mesh`, `instances` — unit-mesh index buffers and per-mesh batching of
    render instances;
  - `link_tree` — a body as a tree of links and its depth-first walk;
  - `viewer`, `camera` — the window's event decisions and the camera keys.
- `app/` — physics (rapier3d), maths (glam), GPU (wgpu), window (winit),
  threads and channels (crossbeam), JSON configs (serde) and the Python
  module (pyo3), all calling into the core.
- `tests/` — tests of the core.
