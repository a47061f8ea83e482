//! The core of a real-time chat service: the wire protocol spoken with
//! clients, the account and channel tables, and the session registry that
//! owns all chat state and decides, event by event, what every connection
//! is told.

pub mod api;
pub mod codec;
pub mod users;
pub mod channels;
pub mod registry;
pub mod blob;
pub mod args;
pub mod post;
