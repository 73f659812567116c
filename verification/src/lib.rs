//! Streaming JSON framing and a typed request/response protocol for a GUI subprocess that is
//! driven over a byte stream.
//!
//! - [`decoder`] turns bytes into frames, as soon as each frame is complete, with [`frame`]
//!   gathering the tokens of a frame into its text.
//! - [`decode`] and [`encode`] read requests from frames and write messages as text, over the
//!   types of [`protocol`] and the object layout of [`wire`]; [`delimit`] ends what is written
//!   with a delimiter and cuts what is read at one.
//! - [`bridge`] is what the two stream threads compute, and [`control`] is what the control
//!   loop decides.
//! - [`laws`] states what holds of the codec as a whole.

pub mod bridge;
pub mod control;
pub mod decode;
pub mod decoder;
pub mod delimit;
pub mod encode;
pub mod frame;
pub mod headers;
pub mod laws;
pub mod names;
pub mod number;
pub mod protocol;
pub mod text;
pub mod token;
pub mod wire;
