//! The client-side core of the RTMP protocol: the AMF0 value codec, the
//! chunk stream framer, the three-phase handshake, the typed command
//! messages, and the session bookkeeping that correlates commands with
//! their responses and routes per-stream status notifications.
//!
//! Everything here works on plain values and byte buffers and carries a
//! contract; the transport, the event loop and URL handling are the
//! surrounding application's concern.

pub mod amf;
pub mod chunk;
pub mod connection;
pub mod error;
pub mod flag;
pub mod handshake;
pub mod message;
pub mod number;
pub mod signal;
pub mod stream;
pub mod util;
pub mod wire;

pub use connection::Connection;
pub use flag::RecordFlag;
pub use message::Message;
pub use stream::NetStream;
