use vstd::prelude::*;

use crate::cidrs::AddressBlock;
use crate::cidrs::P2PSubnet;
use crate::errors::NegotiationError;
use crate::negotiate::all_splittable;
use crate::negotiate::all_splittable_cidrs;
use crate::negotiate::all_wf_blocks;
use crate::negotiate::candidates;
use crate::negotiate::decompose_all;
use crate::negotiate::parse_blocks;
use crate::negotiate::parsed_blocks;

verus! {

use vstd::string::StringExecFns;

/// The local peer's registry of address blocks: the configured blocks,
/// their full /30 decomposition, an optional downstream network to
/// advertise, and the interface to configure. Built once at process
/// start, then only read, so sessions can share it freely.
#[derive(Debug)]
pub struct LocalInventory {
    /// The configured address blocks, normalized.
    pub configured_blocks: Vec<AddressBlock>,
    /// The blocks in the textual form they were configured with,
    /// aligned index by index with `configured_blocks`.
    pub block_texts: Vec<String>,
    /// The /30 subnets of all configured blocks, in decomposition order.
    pub p2p_subnets: Vec<P2PSubnet>,
    /// A downstream network to ask the remote side to route toward us.
    pub advertised_network: Option<AddressBlock>,
    /// The network interface negotiated addresses are assigned to.
    pub interface_name: String,
}

impl LocalInventory {
    /// Validity: the blocks are well-formed and splittable, the subnets
    /// are exactly their decomposition, and the texts line up.
    pub open spec fn wf(self) -> bool {
        &&& all_wf_blocks(self.configured_blocks@)
        &&& all_splittable(self.configured_blocks@)
        &&& self.block_texts@.len() == self.configured_blocks@.len()
        &&& self.p2p_subnets@ == candidates(self.configured_blocks@)
        &&& (self.advertised_network matches Some(b) ==> b.wf())
    }

    /// Build the inventory from startup configuration: parse every
    /// block text, decompose all blocks into /30 subnets, and fix the
    /// interface name, defaulting it when unset. Fails exactly when
    /// some text is malformed or its block cannot hold a /30.
    pub fn initialize(
        cidrs: Vec<String>,
        advertised_network: Option<AddressBlock>,
        interface_name: Option<String>,
    ) -> (r: Result<LocalInventory, NegotiationError>)
        requires
            advertised_network matches Some(b) ==> b.wf(),
        ensures
            all_splittable_cidrs(cidrs.deep_view()) <==> r is Ok,
            r matches Ok(inv) ==> {
                &&& inv.wf()
                &&& inv.configured_blocks@ == parsed_blocks(cidrs.deep_view())
                &&& inv.block_texts == cidrs
                &&& inv.advertised_network == advertised_network
                &&& inv.interface_name@ == (match interface_name {
                    Some(s) => s@,
                    None => "enp0s2"@,
                })
            },
            r matches Err(e) ==> e == NegotiationError::InvalidBlock,
    {
        let blocks = match parse_blocks(&cidrs) {
            Err(e) => {
                return Err(e);
            },
            Ok(b) => b,
        };
        let subnets = match decompose_all(&blocks) {
            Err(e) => {
                return Err(e);
            },
            Ok(s) => s,
        };
        let iface: String = match interface_name {
            Some(s) => s,
            None => String::from_str("enp0s2"),
        };
        Ok(
            LocalInventory {
                configured_blocks: blocks,
                block_texts: cidrs,
                p2p_subnets: subnets,
                advertised_network,
                interface_name: iface,
            },
        )
    }

    /// A read-only view of the inventory, safe to share across sessions
    /// because nothing mutates the store after `initialize`.
    pub fn snapshot(&self) -> (r: &LocalInventory)
        ensures
            r == self,
    {
        self
    }
}

} // verus!
