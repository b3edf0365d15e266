# lunamisc

Verified building blocks for a robot software stack, written in Verus.

`src/` is the library. Every function in it is verified against its
contract, except the trusted items gathered in `foreign`:

- `uint`, `sequenced`, `fragment`, `ecc`: the packet layers — variable-width
  big-endian integers, sequence-number trailers, fragmentation with
  Reed-Solomon parity fragments, and per-block error correction.
- `packet`, `peer`: the reliable/unreliable packet state machine.
- `bt`, `luna_bt`: two behavior-tree libraries.
- `register`, `command`: register access to an IMU over I2C, with page
  switching, and the settings the driver writes.
- `gpu_buffers`: the type-level description of GPU buffers and their sizes.
- `shader_types`: reading a compute shader's text for the host — its
  functions, constants, buffers and the host types of its values.
- `lumpur`: launch settings and the names of working directories.
- `byteable`: filling byte vectors that start out empty.
- `text`: numbers written out in decimal.
- `foreign`: the outside types and functions the library calls, with the
  contracts taken on trust.

`tests/` exercises the library; `app/` holds what runs around it: the
asynchronous layer plumbing, floating-point parity shares, `embedded-hal`
I2C, panics caught in behaviors, and RON descriptions of trees.
