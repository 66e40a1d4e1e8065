use vstd::prelude::*;

use crate::cidrs::P2PSubnet;
use crate::codec::decode_response;
use crate::codec::spec_decode_response;
use crate::errors::NegotiationError;
use crate::inventory::LocalInventory;
use crate::models::NegotiationRequest;
use crate::models::NegotiationResponse;
use crate::models::RouteIntent;
use crate::models::RouteRule;
use crate::negotiate::Role;
use crate::negotiate::all_splittable_cidrs;
use crate::negotiate::allocate;
use crate::negotiate::candidates;
use crate::negotiate::find_common_subnet;
use crate::negotiate::first_common;
use crate::negotiate::lemma_candidates_wf;
use crate::negotiate::lemma_first_common_spec;
use crate::negotiate::parse_blocks;
use crate::negotiate::parsed_blocks;

verus! {

use vstd::string::StringExecFns;

/// The responder's terminal outcome for one inbound request.
#[derive(Debug)]
pub enum ResponderOutcome {
    /// A common /30 was found: the reply to send, and the local
    /// address/route change that must be applied before sending it.
    Accepted {
        /// The reply for the initiator.
        response: NegotiationResponse,
        /// The local change: assign the responder's address and, if the
        /// request named a destination network, route it via the peer.
        intent: RouteIntent,
    },
    /// No proposed /30 is locally available; nothing is touched.
    NoCommonSubnet,
}

/// What the transport layer brought back from the remote peer: whether
/// the call succeeded, and the raw reply body.
#[derive(Clone, Debug)]
pub struct TransportReply {
    /// Whether the peer was reached and replied with success.
    pub success: bool,
    /// The reply body, meaningful only on success.
    pub body: Vec<u8>,
}

/// The subnet a request matches against the inventory: the first /30 of
/// the proposal, in proposal order then ascending address order, that
/// the local side also owns.
pub open spec fn spec_match(inv: LocalInventory, req: NegotiationRequest) -> Option<P2PSubnet> {
    first_common(candidates(parsed_blocks(req.cidrs.deep_view())), inv.p2p_subnets@)
}

/// The responder role: parse the proposal, match it against the local
/// inventory, and on a match assign the lower host address locally and
/// hand the higher one to the initiator. The returned intent must be
/// applied to the operating system before the response is sent; no
/// intent is produced when there is no match. Fails exactly when the
/// proposal holds a malformed or unsplittable block.
pub fn handle_negotiation(inv: &LocalInventory, req: &NegotiationRequest) -> (r: Result<
    ResponderOutcome,
    NegotiationError,
>)
    requires
        inv.wf(),
        req.destination_network matches Some(b) ==> b.wf(),
    ensures
        all_splittable_cidrs(req.cidrs.deep_view()) <==> !(r is Err),
        r matches Err(e) ==> e == NegotiationError::InvalidBlock,
        r is Ok ==> match spec_match(*inv, *req) {
            Option::None => r matches Ok(o) && o is NoCommonSubnet,
            Option::Some(s) => r matches Ok(o) && o matches ResponderOutcome::Accepted {
                response,
                intent,
            } && {
                &&& response.net == s
                &&& response.assigned_ip == s.base + 1
                &&& response.free_ip == s.base + 2
                &&& response.advertised_network == inv.advertised_network
                &&& response.wf()
                &&& intent.address_to_assign == s.base + 1
                &&& intent.prefix_length == 30
                &&& intent.interface_name@ == inv.interface_name@
                &&& intent.route == (match req.destination_network {
                    Option::Some(d) => Option::Some(
                        RouteRule { destination: d, via: (s.base + 2) as u128 },
                    ),
                    Option::None => Option::None::<RouteRule>,
                })
                &&& intent.wf()
            },
        },
{
    let blocks = match parse_blocks(&req.cidrs) {
        Err(e) => {
            return Err(e);
        },
        Ok(b) => b,
    };
    let found = match find_common_subnet(&inv.p2p_subnets, &blocks) {
        Err(e) => {
            proof {
                assert(false);
            }
            return Err(e);
        },
        Ok(f) => f,
    };
    match found {
        None => Ok(ResponderOutcome::NoCommonSubnet),
        Some(subnet) => {
            proof {
                lemma_candidates_wf(blocks@);
                lemma_first_common_spec(candidates(blocks@), inv.p2p_subnets@);
                vstd::arithmetic::power2::lemma2_to64();
            }
            let alloc = match allocate(&subnet, Role::Responder) {
                Err(e) => {
                    proof {
                        assert(false);
                    }
                    return Err(e);
                },
                Ok(a) => a,
            };
            let route: Option<RouteRule> = match &req.destination_network {
                Some(d) => Some(RouteRule { destination: *d, via: alloc.peer_ip }),
                None => None,
            };
            let intent = RouteIntent {
                address_to_assign: alloc.local_ip,
                prefix_length: 30,
                interface_name: String::from_str(inv.interface_name.as_str()),
                route,
            };
            let response = NegotiationResponse::new(
                subnet,
                alloc.peer_ip,
                alloc.local_ip,
                inv.advertised_network,
            );
            Ok(ResponderOutcome::Accepted { response, intent })
        },
    }
}

/// Build the outbound proposal from the inventory: the configured
/// blocks in the textual form they were configured with, and the local
/// advertised network as the destination to route back to us.
pub fn build_request(inv: &LocalInventory) -> (r: NegotiationRequest)
    requires
        inv.wf(),
    ensures
        r.cidrs.deep_view() == inv.block_texts.deep_view(),
        r.destination_network == inv.advertised_network,
{
    let mut texts: Vec<String> = Vec::new();
    let mut i: usize = 0;
    while i < inv.block_texts.len()
        invariant
            i <= inv.block_texts@.len(),
            texts@.len() == i,
            forall|j: int| 0 <= j < i ==> #[trigger] texts@[j]@ == inv.block_texts@[j]@,
        decreases inv.block_texts@.len() - i,
    {
        texts.push(String::from_str(inv.block_texts[i].as_str()));
        i = i + 1;
    }
    proof {
        assert(texts.deep_view() =~= inv.block_texts.deep_view());
    }
    NegotiationRequest::new(texts, inv.advertised_network)
}

/// The initiator role after the transport call: on a failed call or an
/// unreadable reply the negotiation fails with a transport error and
/// nothing is touched; on a readable reply, assign the address the
/// responder freed for us and, if the responder advertised a network,
/// route it via the address the responder assigned to itself.
pub fn start_negotiation(inv: &LocalInventory, reply: &TransportReply) -> (r: Result<
    RouteIntent,
    NegotiationError,
>)
    requires
        inv.wf(),
    ensures
        !reply.success ==> r == Err::<RouteIntent, NegotiationError>(NegotiationError::Transport),
        reply.success ==> match spec_decode_response(reply.body@) {
            Option::None => r == Err::<RouteIntent, NegotiationError>(NegotiationError::Transport),
            Option::Some(resp) => r matches Ok(intent) && {
                &&& intent.address_to_assign == resp.free_ip
                &&& intent.prefix_length == 30
                &&& intent.interface_name@ == inv.interface_name@
                &&& intent.route == (match resp.advertised_network {
                    Option::Some(b) => Option::Some(
                        RouteRule { destination: b, via: resp.assigned_ip },
                    ),
                    Option::None => Option::None::<RouteRule>,
                })
                &&& intent.wf()
            },
        },
{
    if !reply.success {
        return Err(NegotiationError::Transport);
    }
    let resp = match decode_response(&reply.body) {
        None => {
            return Err(NegotiationError::Transport);
        },
        Some(resp) => resp,
    };
    let route: Option<RouteRule> = match &resp.advertised_network {
        Some(b) => Some(RouteRule { destination: *b, via: resp.assigned_ip }),
        None => None,
    };
    Ok(
        RouteIntent {
            address_to_assign: resp.free_ip,
            prefix_length: 30,
            interface_name: String::from_str(inv.interface_name.as_str()),
            route,
        },
    )
}

} // verus!
