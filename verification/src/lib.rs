//! A codec for the DNS message wire format of RFC 1035.
//!
//! A [`Message`] is turned into the octets that go over the wire by
//! [`Message::get_packet`], and octets that came in are parsed back by
//! [`Message::from`]. Every function states what it computes over sequences of
//! octets, and the round-trip laws in the `laws` module relate the two
//! directions.

pub mod dns_error;
pub mod header;
pub mod laws;
pub mod message;
pub mod name;
pub mod question;
pub mod resource;
pub mod wire;

pub use dns_error::DnsError;
pub use header::Header;
pub use message::Message;
pub use question::Question;
pub use resource::Resource;
