//! Binary packet framing and typed wire serialization for the SSH transport layer.

pub mod bytes;
pub mod catalog;
pub mod client;
pub mod line;
pub mod message;
pub mod names;
pub mod packet;
pub mod reader;
pub mod result;
pub mod util;
pub mod window;
pub mod writer;

pub use catalog::{KexInit, Message};
pub use client::{Client, HandshakeState};
pub use message::{NameList, SshItem};
pub use reader::Reader;
pub use result::{SshError, SshErrorKind, SshResult};
pub use writer::Writer;
