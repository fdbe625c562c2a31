//! Core of a remote-desktop streaming engine.
//!
//! A server captures a screen, finds what has changed since the last frame,
//! compresses it and sends it over a length-framed binary protocol; a client
//! puts the frames together again and shows them, and sends input back.
//! This library holds the parts of that pipeline that are rules rather than
//! I/O:
//!
//! - `message_type` and `wire`: the type codes and the framing of messages,
//!   with an accumulator for reads that bring part of a message;
//! - `delta` and `payload`: the block-based frame differ, the rule by which
//!   a capture is classified, and the byte format of a rectangle list;
//! - `codec`, `h264` and `video`: the lossless compressor of the delta path
//!   and the video codec of the motion path;
//! - `capture` and `pixels`: the capture capability and the repacking of
//!   pixel data;
//! - `producer`: what the serving side sends for each capture;
//! - `framebuffer`, `client` and `present`: the viewing side's copy of the
//!   screen, the updates that are written into it, and its way to the
//!   display surface;
//! - `dispatcher` and `handlers`: the decisions of one connection's I/O
//!   loop and the meaning of control and input messages;
//! - `reconstruction`: the proof that the delta path loses nothing.

pub mod message_type;
pub mod wire;
pub mod delta;
pub mod payload;
pub mod codec;
pub mod h264;
pub mod video;
pub mod capture;
pub mod pixels;
pub mod producer;
pub mod framebuffer;
pub mod client;
pub mod present;
pub mod dispatcher;
pub mod handlers;
pub mod reconstruction;
