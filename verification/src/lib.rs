//! A yamux session: many streams over one connection.
//!
//! [`session::Session`] holds all that one end of a connection knows and decides. It does no
//! input or output of its own: it asks for it step by step, as [`step`] says, and reads the
//! channels of its streams and controls itself. [`model`] states what it does, and
//! [`conduct`], [`laws`], [`keeping`], [`arrivals`], [`delivery`], [`ordering`],
//! [`transmission`] and [`handshake`] what follows from that.
pub mod arrivals;
pub mod channel;
pub mod codec;
pub mod conduct;
pub mod config;
pub mod control;
pub mod delivery;
pub mod error;
pub mod frame;
pub mod handshake;
pub mod keeping;
pub mod laws;
pub mod model;
pub mod ordering;
pub mod session;
pub mod step;
pub mod stream;
pub mod time;
pub mod transmission;

pub use crate::config::Config;
pub use crate::control::{Command, Control};
pub use crate::error::{Error, Failure};
pub use crate::session::{Session, SessionType};
pub use crate::stream::StreamHandle;
