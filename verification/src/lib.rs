//! Client bindings for the DaZeus IRC bot core.
//!
//! The crate speaks the DaZeus plugin protocol: length-prefixed JSON frames
//! over a duplex byte stream. It turns raw bytes into discrete JSON
//! messages (and back), classifies incoming messages as events or as
//! responses to earlier requests, correlates responses to requests in FIFO
//! order, and routes events to registered listeners.
//!
//! The session is generic over its connection: anything implementing the
//! [`transport::Transport`] trait will do. Real sockets live with the
//! embedding program; an in-memory connection is provided for tests and
//! buffers.

pub mod dazeus;
pub mod error;
pub mod event;
pub mod handler;
pub mod json;
pub mod listener;
pub mod request;
pub mod response;
pub mod scope;
pub mod transport;

pub use dazeus::{targets_for_event, DaZeus};
pub use error::{Error, InvalidJsonError, ParseConfigGroupError, ParseEventTypeError, ReceiveError};
pub use event::{is_event_json, Event, EventType};
pub use handler::{Handler, Message};
pub use json::JsonValue;
pub use listener::{Listener, ListenerHandle};
pub use request::{ConfigGroup, Request};
pub use response::Response;
pub use scope::Scope;
pub use transport::{MemoryConnection, Transport};
