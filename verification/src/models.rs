use vstd::prelude::*;

use crate::cidrs::AddressBlock;
use crate::cidrs::P2PSubnet;

verus! {

/// A peer's proposal: its candidate address blocks in textual CIDR form,
/// in an order that is significant for matching, and an optional network
/// the proposer asks the other side to route toward it.
#[derive(Clone, Debug)]
pub struct NegotiationRequest {
    /// Candidate address blocks, textual, scanned in this order.
    pub cidrs: Vec<String>,
    /// A network to reach through the proposer, if it advertises one.
    pub destination_network: Option<AddressBlock>,
}

impl NegotiationRequest {
    /// Bundle a proposal.
    pub fn new(cidrs: Vec<String>, destination_network: Option<AddressBlock>) -> (r: Self)
        ensures
            r.cidrs == cidrs,
            r.destination_network == destination_network,
    {
        NegotiationRequest { cidrs, destination_network }
    }
}

/// The responder's reply to an accepted negotiation: the selected /30,
/// the host address each side uses, and the responder's own advertised
/// downstream network, if any.
#[derive(Clone, Copy, Debug, PartialEq, Eq, Structural)]
pub struct NegotiationResponse {
    /// The mutually available /30 subnet the responder selected.
    pub net: P2PSubnet,
    /// The host address the initiator should assign to itself.
    pub free_ip: u128,
    /// The host address the responder assigned to itself.
    pub assigned_ip: u128,
    /// A network to reach through the responder, if it advertises one.
    pub advertised_network: Option<AddressBlock>,
}

impl NegotiationResponse {
    /// Validity: a well-formed /30 and 32-bit host addresses.
    pub open spec fn wf(self) -> bool {
        &&& self.net.wf()
        &&& self.free_ip < 0x1_0000_0000
        &&& self.assigned_ip < 0x1_0000_0000
        &&& (self.advertised_network matches Some(b) ==> b.wf())
    }

    /// Bundle a reply.
    pub fn new(
        net: P2PSubnet,
        free_ip: u128,
        assigned_ip: u128,
        advertised_network: Option<AddressBlock>,
    ) -> (r: Self)
        ensures
            r.net == net,
            r.free_ip == free_ip,
            r.assigned_ip == assigned_ip,
            r.advertised_network == advertised_network,
    {
        NegotiationResponse { net, free_ip, assigned_ip, advertised_network }
    }
}

/// The instruction to start one outbound negotiation: the remote
/// responder's endpoint, and the network the initiator wants routed
/// toward it over the negotiated link.
#[derive(Clone, Debug)]
pub struct NegotiationInformation {
    /// The remote peer's negotiation endpoint.
    pub endpoint: String,
    /// The network to ask the responder to route toward the initiator.
    pub destination_network: Option<AddressBlock>,
}

/// One route entry: reach `destination` through the gateway `via`.
#[derive(Clone, Copy, Debug, PartialEq, Eq, Structural)]
pub struct RouteRule {
    /// The network the route leads to.
    pub destination: AddressBlock,
    /// The gateway address on the negotiated link.
    pub via: u128,
}

/// The fully resolved operating-system change for one negotiated link:
/// assign an address on an interface and, optionally, add one route.
/// Produced by a negotiation session, consumed by the route provisioner.
#[derive(Clone, Debug)]
pub struct RouteIntent {
    /// The host address to assign locally.
    pub address_to_assign: u128,
    /// The prefix length to assign with, always 30 for a negotiated link.
    pub prefix_length: u8,
    /// The network interface to configure.
    pub interface_name: String,
    /// The route to add, if the other side advertised a network.
    pub route: Option<RouteRule>,
}

impl RouteIntent {
    /// Validity: a 32-bit host address, a /30 assignment, and a
    /// well-formed route destination.
    pub open spec fn wf(self) -> bool {
        &&& self.address_to_assign < 0x1_0000_0000
        &&& self.prefix_length == 30
        &&& (self.route matches Some(r) ==> r.destination.wf() && r.via < 0x1_0000_0000)
    }
}

} // verus!
