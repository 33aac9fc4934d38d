//! Copying a byte stream between two computers that can only see each
//! other: each shows QR codes on its screen and films the screen of the
//! other.
//!
//! The stream is cut into segments. The receiving endpoint asks for one
//! segment at a time with a clear-to-send frame, the sending endpoint shows
//! that segment until it is asked for the next, and a done frame ends the
//! stream in either direction. Every frame carries a sequence number, so
//! that a frame which the camera reads many times counts once.
//!
//! - [`frame`] and [`wire`]: the byte layout of a frame.
//! - [`source`]: where the sender gets its segments.
//! - [`receiver`], [`sender`] and [`transport`]: the two tasks of an
//!   endpoint and the endpoint that they make up.
//! - [`flow`] and [`session`]: what holds of one endpoint, and of two that
//!   film each other.
//! - [`codec`] and [`camera`]: what the QR encoder is handed for a frame,
//!   and the frames among what was read off the pictures of the camera.
//! - [`ui`], [`log`], [`text`] and [`args`]: the display and the settings.

pub mod args;
pub mod camera;
pub mod codec;
pub mod flow;
pub mod frame;
pub mod log;
pub mod message;
pub mod receiver;
pub mod sender;
pub mod session;
pub mod source;
pub mod text;
pub mod transport;
pub mod ui;
pub mod wire;

pub use crate::args::Args;
pub use crate::camera::Camera;
pub use crate::codec::{Decoder, Encoder};
pub use crate::frame::Frame;
pub use crate::log::Log;
pub use crate::message::Message;
pub use crate::source::{SegmentSource, SegmentSourceFactory};
pub use crate::transport::Transport;
