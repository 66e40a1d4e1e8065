use vstd::prelude::*;

use crate::cidrs::AddressBlock;
use crate::cidrs::P2PSubnet;
use crate::cidrs::address_parser;
use crate::cidrs::decompose;
use crate::cidrs::spec_parse_block;
use crate::errors::NegotiationError;

verus! {

/// Which side of a negotiation this peer plays.
#[derive(Clone, Copy, Debug, PartialEq, Eq, Structural)]
pub enum Role {
    /// The side that proposes blocks and receives the reply.
    Initiator,
    /// The side that receives a proposal, matches and replies.
    Responder,
}

/// The two usable host addresses of a matched /30, one per side.
#[derive(Clone, Copy, Debug, PartialEq, Eq, Structural)]
pub struct Allocation {
    /// The address this side assigns to itself.
    pub local_ip: u128,
    /// The address the other side will use.
    pub peer_ip: u128,
}

/// Every block of the sequence is well-formed.
pub open spec fn all_wf_blocks(blocks: Seq<AddressBlock>) -> bool {
    forall|i: int| 0 <= i < blocks.len() ==> (#[trigger] blocks[i]).wf()
}

/// Every block of the sequence can be split into /30 subnets.
pub open spec fn all_splittable(blocks: Seq<AddressBlock>) -> bool {
    forall|i: int| 0 <= i < blocks.len() ==> (#[trigger] blocks[i]).p2p_splittable()
}

/// The flattened split of the given blocks into /30 subnets: proposal
/// order first, ascending address order within one block.
pub open spec fn candidates(blocks: Seq<AddressBlock>) -> Seq<P2PSubnet>
    decreases blocks.len(),
{
    if blocks.len() == 0 {
        Seq::empty()
    } else {
        candidates(blocks.drop_last()) + blocks.last().spec_decompose()
    }
}

/// The first candidate of `cands` that also appears in `local`.
pub open spec fn first_common(cands: Seq<P2PSubnet>, local: Seq<P2PSubnet>) -> Option<P2PSubnet>
    decreases cands.len(),
{
    if cands.len() == 0 {
        Option::None
    } else if local.contains(cands[0]) {
        Option::Some(cands[0])
    } else {
        first_common(cands.drop_first(), local)
    }
}

/// Split every block of a proposal, keeping the scan order: blocks in
/// proposal order, subnets of one block in ascending order. Fails
/// exactly when some block cannot be split.
pub fn decompose_all(blocks: &Vec<AddressBlock>) -> (r: Result<
    Vec<P2PSubnet>,
    NegotiationError,
>)
    requires
        all_wf_blocks(blocks@),
    ensures
        all_splittable(blocks@) <==> r is Ok,
        r matches Ok(subs) ==> subs@ == candidates(blocks@),
        r matches Err(e) ==> e == NegotiationError::InvalidBlock,
{
    let mut out: Vec<P2PSubnet> = Vec::new();
    let mut i: usize = 0;
    proof {
        assert(blocks@.take(0) =~= Seq::<AddressBlock>::empty());
    }
    while i < blocks.len()
        invariant
            all_wf_blocks(blocks@),
            i <= blocks@.len(),
            forall|j: int| 0 <= j < i ==> (#[trigger] blocks@[j]).p2p_splittable(),
            out@ == candidates(blocks@.take(i as int)),
        decreases blocks@.len() - i,
    {
        let ghost pre = blocks@.take(i as int);
        match decompose(&blocks[i]) {
            Err(e) => {
                return Err(e);
            },
            Ok(mut subs) => {
                out.append(&mut subs);
            },
        }
        proof {
            assert(blocks@.take(i + 1).drop_last() =~= pre);
            assert(blocks@.take(i + 1).last() == blocks@[i as int]);
            assert(out@ == candidates(blocks@.take(i + 1)));
        }
        i = i + 1;
    }
    proof {
        assert(blocks@.take(blocks@.len() as int) =~= blocks@);
    }
    Ok(out)
}

/// Whether the text parses to a block that /30 subnets fit into.
pub open spec fn splittable_cidr(s: Seq<char>) -> bool {
    match spec_parse_block(s) {
        Option::None => false,
        Option::Some(b) => b.p2p_splittable(),
    }
}

/// Every text of the sequence parses to a splittable block.
pub open spec fn all_splittable_cidrs(texts: Seq<Seq<char>>) -> bool {
    forall|i: int| 0 <= i < texts.len() ==> splittable_cidr(#[trigger] texts[i])
}

/// The blocks the texts parse to, meaningful when all of them parse.
pub open spec fn parsed_blocks(texts: Seq<Seq<char>>) -> Seq<AddressBlock> {
    Seq::new(texts.len(), |i: int| spec_parse_block(texts[i])->Some_0)
}

/// Parse every proposed CIDR text into its normalized block. Fails
/// exactly when some text is malformed, or parses to a block that is
/// not IPv4 or is too small to hold a /30.
pub fn parse_blocks(cidrs_strings: &Vec<String>) -> (r: Result<Vec<AddressBlock>, NegotiationError>)
    ensures
        all_splittable_cidrs(cidrs_strings.deep_view()) <==> r is Ok,
        r matches Ok(blocks) ==> {
            &&& blocks@ == parsed_blocks(cidrs_strings.deep_view())
            &&& all_wf_blocks(blocks@)
            &&& all_splittable(blocks@)
        },
        r matches Err(e) ==> e == NegotiationError::InvalidBlock,
{
    let ghost texts = cidrs_strings.deep_view();
    let mut blocks: Vec<AddressBlock> = Vec::new();
    let mut i: usize = 0;
    while i < cidrs_strings.len()
        invariant
            i <= cidrs_strings@.len(),
            texts == cidrs_strings.deep_view(),
            texts.len() == cidrs_strings@.len(),
            forall|j: int| 0 <= j < texts.len() ==> texts[j] == #[trigger] cidrs_strings@[j]@,
            blocks@.len() == i,
            forall|j: int| 0 <= j < i ==> splittable_cidr(#[trigger] texts[j]),
            forall|j: int|
                0 <= j < i ==> Some(#[trigger] blocks@[j]) == spec_parse_block(texts[j])
                    && blocks@[j].wf() && blocks@[j].p2p_splittable(),
        decreases cidrs_strings@.len() - i,
    {
        match address_parser(cidrs_strings[i].as_str()) {
            Err(e) => {
                return Err(e);
            },
            Ok(b) => {
                if !b.v4 || b.prefix_len > 30 {
                    return Err(NegotiationError::InvalidBlock);
                }
                blocks.push(b);
            },
        }
        i = i + 1;
    }
    proof {
        assert(blocks@ =~= parsed_blocks(texts));
    }
    Ok(blocks)
}

/// Parse a proposal and flatten it into its /30 candidate subnets, in
/// scan order: texts in the order given, subnets of one block ascending.
pub fn parse_to_p2p_nets(cidrs_strings: &Vec<String>) -> (r: Result<
    Vec<P2PSubnet>,
    NegotiationError,
>)
    ensures
        all_splittable_cidrs(cidrs_strings.deep_view()) <==> r is Ok,
        r matches Ok(subs) ==> subs@ == candidates(parsed_blocks(cidrs_strings.deep_view())),
        r matches Err(e) ==> e == NegotiationError::InvalidBlock,
{
    match parse_blocks(cidrs_strings) {
        Err(e) => Err(e),
        Ok(blocks) => decompose_all(&blocks),
    }
}

/// Linear membership scan over the local /30 inventory.
fn contains_subnet(local: &Vec<P2PSubnet>, s: &P2PSubnet) -> (r: bool)
    ensures
        r == local@.contains(*s),
{
    let mut i: usize = 0;
    while i < local.len()
        invariant
            i <= local@.len(),
            forall|j: int| 0 <= j < i ==> local@[j] != *s,
        decreases local@.len() - i,
    {
        if local[i] == *s {
            return true;
        }
        i = i + 1;
    }
    false
}

/// Find the first /30 subnet of the remote proposal that the local side
/// also owns: blocks are scanned in the order proposed, and within one
/// block in ascending address order. `None` is the normal "no common
/// subnet" outcome; the error comes exactly when a proposed block cannot
/// be split into /30 subnets.
pub fn find_common_subnet(local: &Vec<P2PSubnet>, remote_proposed_blocks: &Vec<AddressBlock>) -> (r:
    Result<Option<P2PSubnet>, NegotiationError>)
    requires
        all_wf_blocks(remote_proposed_blocks@),
    ensures
        all_splittable(remote_proposed_blocks@) <==> r is Ok,
        r matches Ok(o) ==> o == first_common(candidates(remote_proposed_blocks@), local@),
        r matches Err(e) ==> e == NegotiationError::InvalidBlock,
{
    let cands = match decompose_all(remote_proposed_blocks) {
        Err(e) => {
            return Err(e);
        },
        Ok(c) => c,
    };
    let mut i: usize = 0;
    proof {
        assert(cands@.skip(0) =~= cands@);
    }
    while i < cands.len()
        invariant
            i <= cands@.len(),
            all_splittable(remote_proposed_blocks@),
            cands@ == candidates(remote_proposed_blocks@),
            first_common(cands@.skip(i as int), local@) == first_common(cands@, local@),
        decreases cands@.len() - i,
    {
        let ghost rest = cands@.skip(i as int);
        proof {
            assert(rest[0] == cands@[i as int]);
        }
        if contains_subnet(local, &cands[i]) {
            proof {
                assert(first_common(rest, local@) == Some(cands@[i as int]));
            }
            return Ok(Some(cands[i]));
        }
        proof {
            assert(rest.drop_first() =~= cands@.skip(i + 1));
        }
        i = i + 1;
    }
    proof {
        assert(cands@.skip(cands@.len() as int) =~= Seq::<P2PSubnet>::empty());
    }
    Ok(None)
}

/// Law: the matcher's result is exact. `None` comes exactly when no
/// candidate subnet of the proposal is locally owned; a returned subnet
/// is a mutually owned candidate, and every candidate scanned before it
/// is not locally owned (the deliberate proposal-order, then
/// address-order tie-break).
pub proof fn lemma_first_common_spec(cands: Seq<P2PSubnet>, local: Seq<P2PSubnet>)
    ensures
        first_common(cands, local) is None <==> (forall|i: int|
            0 <= i < cands.len() ==> !local.contains(#[trigger] cands[i])),
        first_common(cands, local) matches Some(s) ==> exists|i: int|
            {
                &&& 0 <= i < cands.len()
                &&& #[trigger] cands[i] == s
                &&& local.contains(s)
                &&& forall|j: int| 0 <= j < i ==> !local.contains(#[trigger] cands[j])
            },
    decreases cands.len(),
{
    if cands.len() == 0 {
    } else if local.contains(cands[0]) {
        let s = cands[0];
        assert(0 <= 0 < cands.len() && cands[0] == s && local.contains(s) && (forall|j: int|
            0 <= j < 0 ==> !local.contains(#[trigger] cands[j])));
    } else {
        lemma_first_common_spec(cands.drop_first(), local);
        let rest = cands.drop_first();
        if first_common(cands, local) is None {
            assert forall|i: int| 0 <= i < cands.len() implies !local.contains(
                #[trigger] cands[i],
            ) by {
                if i > 0 {
                    assert(cands[i] == rest[i - 1]);
                }
            }
        } else {
            let s = first_common(cands, local)->Some_0;
            let i = choose|i: int|
                {
                    &&& 0 <= i < rest.len()
                    &&& #[trigger] rest[i] == s
                    &&& local.contains(s)
                    &&& forall|j: int| 0 <= j < i ==> !local.contains(#[trigger] rest[j])
                };
            assert(cands[i + 1] == rest[i]);
            assert forall|j: int| 0 <= j < i + 1 implies !local.contains(#[trigger] cands[j]) by {
                if j > 0 {
                    assert(cands[j] == rest[j - 1]);
                }
            }
        }
    }
}

/// Every candidate subnet of well-formed splittable blocks is itself a
/// well-formed /30.
pub proof fn lemma_candidates_wf(blocks: Seq<AddressBlock>)
    requires
        all_wf_blocks(blocks),
        all_splittable(blocks),
    ensures
        forall|i: int|
            0 <= i < candidates(blocks).len() ==> (#[trigger] candidates(blocks)[i]).wf(),
    decreases blocks.len(),
{
    if blocks.len() > 0 {
        let front = blocks.drop_last();
        assert(all_wf_blocks(front) && all_splittable(front)) by {
            assert(forall|i: int| 0 <= i < front.len() ==> front[i] == blocks[i]);
        }
        lemma_candidates_wf(front);
        crate::cidrs::lemma_decompose_partitions(blocks.last());
        assert forall|i: int|
            0 <= i < candidates(blocks).len() implies (#[trigger] candidates(blocks)[i]).wf() by {
            if i < candidates(front).len() {
                assert(candidates(blocks)[i] == candidates(front)[i]);
            } else {
                assert(candidates(blocks)[i] == blocks.last().spec_decompose()[i - candidates(
                    front,
                ).len()]);
            }
        }
    }
}

/// The fixed assignment rule: the numerically lower usable host address
/// of the /30 goes to the responder, the higher to the initiator.
pub open spec fn spec_allocate(subnet: P2PSubnet, role: Role) -> Allocation {
    match role {
        Role::Responder => Allocation {
            local_ip: (subnet.base + 1) as u128,
            peer_ip: (subnet.base + 2) as u128,
        },
        Role::Initiator => Allocation {
            local_ip: (subnet.base + 2) as u128,
            peer_ip: (subnet.base + 1) as u128,
        },
    }
}

/// Assign the two usable host addresses of a matched /30: the lower one
/// to the responder, the higher one to the initiator, identically on
/// both sides. Fails exactly when the subnet is not a well-formed /30.
pub fn allocate(subnet: &P2PSubnet, role: Role) -> (r: Result<Allocation, NegotiationError>)
    ensures
        subnet.wf() <==> r is Ok,
        r matches Ok(a) ==> a == spec_allocate(*subnet, role),
        r matches Err(e) ==> e == NegotiationError::SubnetTooSmall,
{
    proof {
        vstd::arithmetic::power2::lemma2_to64();
        vstd::arithmetic::power2::lemma2_to64_rest();
    }
    if subnet.base % 4 != 0 || subnet.base > 0xffff_fffc {
        return Err(NegotiationError::SubnetTooSmall);
    }
    match role {
        Role::Responder => Ok(
            Allocation { local_ip: subnet.base + 1, peer_ip: subnet.base + 2 },
        ),
        Role::Initiator => Ok(
            Allocation { local_ip: subnet.base + 2, peer_ip: subnet.base + 1 },
        ),
    }
}

/// Law: for a well-formed /30 the two roles are assigned exactly the two
/// distinct usable host addresses of the subnet — never its network
/// address (`base`) or broadcast address (`base + 3`) — each side's peer
/// address is the other side's local address, and the assignment is a
/// function of subnet and role alone, so repeated calls agree.
pub proof fn lemma_allocation_fixed_rule(s: P2PSubnet)
    requires
        s.wf(),
    ensures
        spec_allocate(s, Role::Responder).local_ip == s.lower_host(),
        spec_allocate(s, Role::Initiator).local_ip == s.upper_host(),
        spec_allocate(s, Role::Responder).peer_ip == spec_allocate(s, Role::Initiator).local_ip,
        spec_allocate(s, Role::Initiator).peer_ip == spec_allocate(s, Role::Responder).local_ip,
        s.lower_host() != s.upper_host(),
        s.spec_contains_addr(s.lower_host()),
        s.spec_contains_addr(s.upper_host()),
        s.lower_host() != s.base && s.upper_host() != s.base,
        s.lower_host() != s.base + 3 && s.upper_host() != s.base + 3,
{
    vstd::arithmetic::power2::lemma2_to64();
    vstd::arithmetic::power2::lemma2_to64_rest();
}

} // verus!
