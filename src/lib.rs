//! Encoding and decoding of DNS messages as they travel in one UDP datagram:
//! the 12-byte header, label-encoded names, one question, one resource
//! record and the fixed 512-byte frame around them.

pub mod answer;
pub mod buffer;
pub mod error;
pub mod header;
pub mod message;
pub mod name;
pub mod question;
pub mod record;
pub mod types;
pub mod wire;

pub use answer::{build_answer, DnsAnswer};
pub use error::CodecError;
pub use header::{DnsHeader, OPCODE, QR, RCODE};
pub use message::DnsMessage;
pub use question::DnsQuestion;
pub use record::RR;
pub use types::{Class, Type};
