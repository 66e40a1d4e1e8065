use vstd::prelude::*;

verus! {

/// The failures a negotiation can surface. A proposal with no common
/// subnet is a normal outcome, not an error, and is reported through
/// `session::ResponderOutcome` instead.
#[derive(Clone, Copy, Debug, PartialEq, Eq, Structural)]
pub enum NegotiationError {
    /// Malformed address-block text, or a block too small to split
    /// into /30 point-to-point subnets.
    InvalidBlock,
    /// A subnet handed to the allocator is not a well-formed /30.
    SubnetTooSmall,
    /// The remote peer could not be reached, replied with a failure,
    /// or replied with an unreadable body.
    Transport,
    /// The operating-system network change could not be applied.
    Provisioning,
}

impl NegotiationError {
    /// A human-readable description, in place of `Display`.
    pub fn message(&self) -> (r: &'static str)
        ensures
            r@ == match self {
                NegotiationError::InvalidBlock => "invalid or undersized address block"@,
                NegotiationError::SubnetTooSmall => "subnet is not a usable /30"@,
                NegotiationError::Transport => "transport failure while contacting the peer"@,
                NegotiationError::Provisioning => "failed to apply the network change"@,
            },
    {
        match self {
            NegotiationError::InvalidBlock => "invalid or undersized address block",
            NegotiationError::SubnetTooSmall => "subnet is not a usable /30",
            NegotiationError::Transport => "transport failure while contacting the peer",
            NegotiationError::Provisioning => "failed to apply the network change",
        }
    }
}

} // verus!
