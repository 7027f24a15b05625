# acpu

Goldilocks-field kernels and the data model of a Metal compute/render layer,
written in Verus. Every function in `src/` carries a contract that Verus
proves, except one trusted wrapper, `io_error_text` in `src/gpu/error.rs`,
which renders a `std::io::Error` through its `Display` and states nothing of
the text.

- `src/field`: Goldilocks arithmetic, the radix-2 NTT (with proofs that it
  computes the discrete Fourier transform at a primitive root and that it is
  linear), the primality of p (a Pocklington certificate) and Fermat's
  little theorem, so that `gl_inv` is proved to invert, multilinear
  evaluation (with the hypercube-corner and Lagrange-form laws), Tip5 over
  raw Montgomery words and over canonical values (with the Montgomery,
  power-map, MDS and padding laws).
- `src/lut.rs`, `src/sme.rs`, `src/streaming.rs`, `src/error.rs`: byte
  table permutes, work partitioning, the streaming context record and the
  CPU feature gate.
- `src/gpu`: Metal constants, error values and messages, argument checks,
  the render pipeline / vertex layout specifications, and the descriptor
  settings a render pipeline is built with.
- `app/`: the host side: feature probing, streaming-mode entry and exit,
  thread fan-out, and the `Display` face of the Metal error type.
- `tests/`: unit tests, tests of the laws on concrete values, and
  bit-identity tests against `twenty-first`.
