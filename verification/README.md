# capnp_zmq

Cap'n Proto messages over ZeroMQ, and the `zmq-explorers` toy pipeline built
on them, as a Verus-verified library with a thin program around it.

- `src/framing.rs`: one frame per segment on the way out (the "more" flag on
  all but the last), the receiving state machine on the way in, and received
  frames read back as whole-word segments.
- `src/ppm.rs`: the binary PPM format that the explorer loads and the viewer
  writes, with the proof that what the viewer writes loads back unchanged.
- `src/decimal.rs`: decimal numbers as `u32::from_str` reads them and `{}`
  writes them.
- `src/explorer.rs`: noisy measurements of an image and gibberish warnings.
- `src/viewer.rs`: the confidence colour of a grid cell.
- `src/chance.rs`: the calls into `rand` and `time`, with the contracts the
  rest relies on.
- `app/`: the sockets, the files, the Cap'n Proto message accessors, the
  floating-point positions and averages, and `main`.
