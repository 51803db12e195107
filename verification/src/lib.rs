//! The core of a piano practice player that waits for its user.
//!
//! - [`player`] plays a song frame by frame, lights the guides of the keys that the user has to
//!   strike, and picks the song up wherever playback is moved to.
//! - [`play_along`] keeps what the user has yet to strike.
//! - [`bt_bridge`] links up with an instrument through a helper process, [`python`] finds that
//!   process, and [`stream`] cuts what it sends into messages.
//! - [`song`], [`midi`], [`keyboard`], [`time`] and [`times`] hold what these work on.
//!
//! Nothing in here reads a clock, a socket or a file. Every decision is a function of plain
//! values; what there is to do comes back as plain values.

pub mod bt_bridge;
pub mod keyboard;
pub mod midi;
pub mod play_along;
pub mod player;
pub mod python;
pub mod song;
pub mod stream;
pub mod time;
pub mod times;
mod wire;
