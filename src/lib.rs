//! Relays a push-video feed: an incremental parser for `multipart/x-mixed-replace`
//! byte streams, and a latest-value store that fans the newest frame out to
//! independently paced subscribers.

pub mod buffer;
pub mod error;
pub mod frame;
pub mod headers;
pub mod parser;
pub mod store;

pub use error::Error;
pub use frame::wrap_frame;
pub use headers::{parse_decimal, Header};
pub use parser::{parse, Parser, ParserBuilder, Part, Step};
pub use store::{Subscription, UpdateStream};
