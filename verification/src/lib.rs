//! Framing and routing for a single-server, many-client message transport.
//!
//! A frame on the wire is a four-byte big-endian size, then one state byte,
//! then the data: state 0 carries the sender's name (registration), state 1
//! carries a serialized user message. The size counts the state byte and the
//! data, so no frame carries 2^32 bytes or more.
pub mod buffer;
pub mod codec;
pub mod header;
pub mod routing;

pub use codec::{parse_frame, FrameParse, MessageCodec};
pub use header::{four_vecu8_to_number, number_to_four_vecu8, DATA_SIZE};
pub use routing::{classify, Delivery, Incoming, Registry};
