//! A DNS wire-format codec and iterative resolver core.
//!
//! The crate parses and serializes RFC 1035 messages through a fixed
//! 512-byte frame with a cursor, and provides the pure decision logic of
//! an iterative resolver and of a one-question UDP server.

pub mod buffer;
pub mod errors;
pub mod header;
pub mod name;
pub mod packet;
pub mod query_class;
pub mod query_type;
pub mod question;
pub mod record;
pub mod resolver;
pub mod result_code;
mod rng;
pub mod roundtrip;
pub mod server;

pub use buffer::BytePacketBuffer;
pub use errors::DnsError;
pub use header::DnsHeader;
pub use packet::DnsPacket;
pub use query_class::QueryClass;
pub use query_type::QueryType;
pub use question::DnsQuestion;
pub use record::{DnsRecord, Ipv4Addr, Ipv6Addr};
pub use resolver::{Resolver, ResolverAction, ResolverFrame};
pub use result_code::ResultCode;
pub use server::{build_reply, take_question};
