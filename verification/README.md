# cuda_monitor

A GPU monitor that shows load, memory and temperature as a cloud of particles, and names the
language models that are loaded.

- `src/` is the library, verified with Verus: reading the reports of `nvidia-smi` and Ollama, the
  size that a model's name shows, the registry of patterns with its keys, the history of readings,
  the bookkeeping of lightning strikes, and the order in which particles are drawn.
- `app/` is the window: the commands and the connection that telemetry comes from, the motion and
  colour of the patterns, which are floating point, and the drawing with `eframe`.
- `tests/` runs the library on examples.

Number keys 1 to 0 select the chip patterns, `-` the star field, Tab goes through all of them;
`B` sends the window to the back and `F` brings it to the front. `PIN=0` in the environment lets
the window be dragged.
