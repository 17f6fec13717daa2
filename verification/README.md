# ctest

Protocol logic for the ZC-Q1401 C14 sampler (device type `0x04`), which is
reached over a serial line through a TCP bridge, with its contracts proved by
Verus.

- `src/` — the verified library: the frame format (`68 n n 68 payload checksum
  0D`), the requests the sampler accepts and how its replies are read, the
  values it reports, and the reading of a command-line instant-data mask.
  Readings stay as the bit patterns of single-precision values.
- `app/` — the `c14-test` command-line tool: the TCP link (tokio), argument
  handling (clap), JSON output (serde) and the conversion of readings to `f32`.
- `tests/` — tests of the library on concrete frames and replies.
