# leo_core

A byte-level sparse recurrent learning runtime, verified with Verus.

A model is a fixed network of neurons in blocks, with delayed recurrent synapses, an input
projection for each symbol, a readout, and a fixed-capacity memory of contexts. A runtime feeds a
document to it symbol by symbol; each step delivers what is due, lets the touched neurons compete,
predicts the next symbol and, where the permission allows it, learns from the one that came.

## Layout

- `src/` is the library. Every function in it has a contract that Verus proves.
  - `config`, `model`, `initialize`, `assembly`, `draw_laws`: settings, parameters, and how new ones
    are made.
  - `runtime`, `stages`, `lesson`, `step`: what one step does, stage by stage.
  - `step_laws`, `metric_laws`, `repeat_laws`, `tracking_laws`, `row_laws`, `key_laws`,
    `document_laws`: what holds of every step and of whole documents.
  - `parallel`, `delta_laws`, `context_merge`, `merge`, `reduction`, `merge_laws`: the deltas of
    workers and their mean.
  - `backend`, `executor`: the boundary that runtimes share, and the one on the CPU.
  - `cuda_plan`, `device`, `buffers`, `launch`, `wavefront`, `replay`, `fallback`, `snapshot`,
    `gather`, `scatter` and their neighbours: the plan of work on a GPU, and what is made of its
    results.
  - `story_batch`, `batch_course`: what a batch of stories holds, and what is done after what.
- `tests/` runs the library with single-precision arithmetic.
- `app/` holds what stands around the library: files, environment variables, TOML, printing,
  the CUDA driver as far as it can be asked without a kernel, random draws, and the arithmetic of the
  machine.

## Arithmetic

The library does not compute with floating-point numbers itself. It holds them by their bits,
compares and clips them by their bits, and takes sums, products and the like from its caller as an
implementation of `arithmetic::Numerics`. Contracts name what that arithmetic gives, so they are
exact whatever it is.
