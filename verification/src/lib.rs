//! Protocol logic for the ZC-Q1401 C14 sampler, spoken over a serial link that
//! is reached through a TCP bridge.
//!
//! - `text`: character helpers (hex and decimal digits, white space, ASCII case).
//! - `types`: the values the device reports or is set with (status, date and
//!   time, sample mode).
//! - `transport`: the frame format `68 n n 68 payload checksum 0D`, its builder,
//!   the checks made on a received frame and the hexadecimal dump of frames.
//! - `c14`: the requests the C14 sampler accepts and how its replies are read.
//! - `mask`: reading an instant-data mask given on the command line.
//!
//! Sockets, timeouts and floating-point conversion stay with the caller:
//! readings travel as the bit patterns of the single-precision values.
pub mod text;

pub mod types;

pub mod transport;

pub mod c14;

pub mod mask;
