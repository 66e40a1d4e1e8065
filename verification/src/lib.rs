//! Negotiation of a point-to-point /30 subnet between two router peers.
//!
//! Two peers each hold an inventory of candidate address blocks. The
//! initiator proposes its blocks; the responder decomposes the proposal
//! into /30 subnets, picks the first one it also owns, assigns the two
//! usable host addresses by a fixed rule, and replies. Both sides then
//! derive the address/route change to apply to the operating system.

pub mod cidrs;
pub mod errors;
pub mod inventory;
pub mod codec;
pub mod models;
pub mod negotiate;
pub mod provision;
pub mod session;
