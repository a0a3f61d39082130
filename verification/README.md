# vectorloom_local

The library behind VectorLoom, an image vectorization service, written in Verus.

- `src/lib.rs`: the decisions of direct tracing (color estimate, palette size, detail and
  downscale limits, accepted upload types) and the runtime status report.
- `src/starvector.rs`: checking, cutting and repairing the SVG text that StarVector models
  generate, and the decisions of the in-process StarVector runtime.
- `src/models.rs`: the StarVector checkpoints, their paths and download addresses, and the
  state of their downloads, selection and deletion.
- `src/text.rs`: character-level text helpers with their specifications.
- `app/`: the HTTP server and the file, network, image and model work around the library.
