//! A small TCP stack in user space that carries datagrams, and the rules of a server built on it.
//!
//! Programs send datagrams as if they were part of a TCP connection, so that they pass through NAT
//! and firewalls. Datagrams keep their boundaries and may arrive in any order; nothing is sent
//! twice, held back or slowed down.
//!
//! A [`stack::Stack`] knows the connections and says where packets go. A [`socket::Socket`] is one
//! connection, with its handshakes, its datagrams and its keepalives. Neither waits nor talks to a
//! device: each step takes what happened and says what to do next. What holds of them as a whole
//! is stated and proved in [`laws`].
pub mod addr;
pub mod bytes;
pub mod checksum;
pub mod encryption;
pub mod flows;
pub mod laws;
pub mod packet;
pub mod pf;
pub mod rules;
pub mod server;
pub mod socket;
pub mod stack;
pub mod table;
pub mod text;
