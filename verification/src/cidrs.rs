use vstd::prelude::*;

use crate::errors::NegotiationError;

verus! {

use vstd::arithmetic::power2::pow2;
use vstd::arithmetic::power2::lemma_pow2_pos;
use vstd::arithmetic::power2::lemma_pow2_adds;
use vstd::arithmetic::power2::lemma_pow2_strictly_increases;
use vstd::arithmetic::power2::lemma2_to64;
use vstd::arithmetic::power2::lemma2_to64_rest;
use vstd::arithmetic::div_mod::lemma_fundamental_div_mod;
use vstd::arithmetic::div_mod::lemma_mod_multiples_basic;
use vstd::arithmetic::div_mod::lemma_mod_multiples_vanish;
use vstd::arithmetic::div_mod::lemma_mod_mod;
use vstd::arithmetic::div_mod::lemma_small_mod;
use vstd::arithmetic::div_mod::lemma_mod_bound;
use vstd::arithmetic::div_mod::lemma_multiply_divide_lt;

/// Number of address bits of the given IP version.
pub open spec fn spec_bits(v4: bool) -> nat {
    if v4 {
        32nat
    } else {
        128nat
    }
}

/// An IP network prefix: an address and a prefix length, IPv4 or IPv6.
/// A well-formed block is normalized: the bits below the prefix are zero,
/// so equality of blocks is equality of network address and prefix.
#[derive(Clone, Copy, Debug, PartialEq, Eq, Structural)]
pub struct AddressBlock {
    /// True for IPv4; the address then fits in 32 bits.
    pub v4: bool,
    /// The network address, as an integer in big-endian bit order.
    pub addr: u128,
    /// The prefix length, at most 32 (IPv4) or 128 (IPv6).
    pub prefix_len: u8,
}

/// A point-to-point /30 IPv4 subnet: four addresses starting at `base`,
/// of which `base + 1` and `base + 2` are the usable host addresses.
#[derive(Clone, Copy, Debug, PartialEq, Eq, Structural)]
pub struct P2PSubnet {
    /// The network address of the /30, a multiple of four.
    pub base: u128,
}

impl AddressBlock {
    /// Number of address bits of this block's IP version.
    pub open spec fn bits(self) -> nat {
        spec_bits(self.v4)
    }

    /// Number of addresses the block spans.
    pub open spec fn block_size(self) -> nat {
        pow2((self.bits() - self.prefix_len) as nat)
    }

    /// Validity: prefix length in range, address in range and normalized.
    pub open spec fn wf(self) -> bool {
        &&& self.prefix_len <= self.bits()
        &&& (self.addr as nat) < pow2(self.bits())
        &&& self.addr as int % (self.block_size() as int) == 0
    }

    /// Whether the address `a` lies in this block's range.
    pub open spec fn spec_contains_addr(self, a: int) -> bool {
        self.addr <= a < self.addr + self.block_size()
    }

    /// Whether the block can be split into IPv4 /30 point-to-point subnets.
    pub open spec fn p2p_splittable(self) -> bool {
        self.v4 && self.prefix_len <= 30
    }

    /// How many /30 subnets the split yields.
    pub open spec fn p2p_count(self) -> nat {
        pow2((30 - self.prefix_len) as nat)
    }

    /// The exhaustive ascending split of this block into /30 subnets.
    pub open spec fn spec_decompose(self) -> Seq<P2PSubnet> {
        Seq::new(self.p2p_count(), |i: int| P2PSubnet { base: (self.addr + 4 * i) as u128 })
    }
}

impl P2PSubnet {
    /// Validity: a multiple of four whose four addresses fit in 32 bits.
    pub open spec fn wf(self) -> bool {
        &&& self.base as int % 4 == 0
        &&& self.base + 4 <= pow2(32)
    }

    /// The numerically lower usable host address.
    pub open spec fn lower_host(self) -> int {
        self.base + 1
    }

    /// The numerically higher usable host address.
    pub open spec fn upper_host(self) -> int {
        self.base + 2
    }

    /// Whether the address `a` lies in this subnet's four-address range.
    pub open spec fn spec_contains_addr(self, a: int) -> bool {
        self.base <= a < self.base + 4
    }
}

/// Numeric values of the powers of two this module reasons about.
proof fn lemma_pow2_values()
    ensures
        pow2(2) == 4,
        pow2(30) == 0x4000_0000,
        pow2(32) == 0x1_0000_0000,
        pow2(128) == 0x1_0000_0000_0000_0000_0000_0000_0000_0000,
{
    lemma2_to64();
    lemma2_to64_rest();
    lemma_pow2_adds(64, 64);
}

/// `2^e` as a `u128`, for exponents below the width of `u128`.
pub fn pow2_u128(e: u8) -> (r: u128)
    requires
        e <= 127,
    ensures
        r as nat == pow2(e as nat),
{
    let mut r: u128 = 1;
    let mut i: u8 = 0;
    proof {
        lemma2_to64();
    }
    while i < e
        invariant
            i <= e,
            e <= 127,
            r as nat == pow2(i as nat),
        decreases e - i,
    {
        proof {
            lemma_pow2_adds(i as nat, 1);
            lemma2_to64();
            lemma_pow2_strictly_increases((i + 1) as nat, 128);
            lemma_pow2_values();
        }
        r = r * 2;
        i = i + 1;
    }
    r
}

/// The network address of the block: `addr` with the bits below the
/// prefix cleared. Meaningful when `prefix_len <= spec_bits(v4)`.
pub open spec fn spec_network_addr(v4: bool, addr: u128, prefix_len: u8) -> int {
    addr - addr as int % (pow2((spec_bits(v4) - prefix_len) as nat) as int)
}

/// The normalized block made of the given version, address and prefix.
pub open spec fn spec_normalized(v4: bool, addr: u128, prefix_len: u8) -> AddressBlock {
    AddressBlock { v4, addr: spec_network_addr(v4, addr, prefix_len) as u128, prefix_len }
}

impl AddressBlock {
    /// Build a normalized block. Rejects a prefix length beyond the
    /// version's bit width and an IPv4 address beyond 32 bits.
    pub fn new(v4: bool, addr: u128, prefix_len: u8) -> (r: Result<AddressBlock, NegotiationError>)
        ensures
            (prefix_len <= spec_bits(v4) && (addr as nat) < pow2(spec_bits(v4))) <==> r is Ok,
            r matches Ok(b) ==> b == spec_normalized(v4, addr, prefix_len) && b.wf(),
            r matches Err(e) ==> e == NegotiationError::InvalidBlock,
    {
        proof {
            lemma_pow2_values();
        }
        let bits: u8 = if v4 {
            32
        } else {
            128
        };
        if prefix_len > bits {
            return Err(NegotiationError::InvalidBlock);
        }
        if v4 && addr > 0xffff_ffff {
            return Err(NegotiationError::InvalidBlock);
        }
        let network: u128;
        if prefix_len == 0 {
            proof {
                lemma_pow2_pos(spec_bits(v4));
                lemma_small_mod(addr as nat, pow2(spec_bits(v4)));
            }
            network = 0;
            proof {
                lemma_small_mod(0, pow2(spec_bits(v4)));
            }
        } else {
            let size: u128 = pow2_u128(bits - prefix_len);
            proof {
                lemma_pow2_pos((spec_bits(v4) - prefix_len) as nat);
            }
            let rem: u128 = addr % size;
            proof {
                lemma_mod_bound(addr as int, size as int);
                if addr < size {
                    lemma_small_mod(addr as nat, size as nat);
                }
            }
            network = addr - rem;
            proof {
                lemma_fundamental_div_mod(addr as int, size as int);
                lemma_mod_multiples_basic(addr as int / size as int, size as int);
            }
        }
        let b = AddressBlock { v4, addr: network, prefix_len };
        proof {
            assert(b == spec_normalized(v4, addr, prefix_len));
            assert(b.wf());
        }
        Ok(b)
    }

    /// Accept a block received in already-normalized numeric form,
    /// checking its validity; no normalization is applied here.
    pub fn check_decoded(v4: bool, addr: u128, prefix_len: u8) -> (r: Option<AddressBlock>)
        ensures
            r == {
                let b = AddressBlock { v4, addr, prefix_len };
                if b.wf() {
                    Some(b)
                } else {
                    None::<AddressBlock>
                }
            },
    {
        proof {
            lemma_pow2_values();
        }
        let bits: u8 = if v4 {
            32
        } else {
            128
        };
        if prefix_len > bits {
            return None;
        }
        if v4 && addr > 0xffff_ffff {
            return None;
        }
        let ok: bool;
        if prefix_len == 0 {
            proof {
                lemma_pow2_pos(spec_bits(v4));
                lemma_small_mod(addr as nat, pow2(spec_bits(v4)));
            }
            ok = addr == 0;
        } else {
            let size: u128 = pow2_u128(bits - prefix_len);
            proof {
                lemma_pow2_pos((spec_bits(v4) - prefix_len) as nat);
            }
            ok = addr % size == 0;
        }
        if ok {
            Some(AddressBlock { v4, addr, prefix_len })
        } else {
            None
        }
    }
}

/// A multiple of `size` strictly below a bound that is itself a multiple
/// of `size` leaves room for one whole block of `size` addresses.
proof fn lemma_aligned_below(addr: int, size: int, total: int)
    requires
        size > 0,
        addr % size == 0,
        0 <= addr < total,
        total % size == 0,
    ensures
        addr + size <= total,
{
    let q = addr / size;
    let k = total / size;
    lemma_fundamental_div_mod(addr, size);
    lemma_fundamental_div_mod(total, size);
    assert(q < k) by (nonlinear_arith)
        requires
            addr == size * q,
            total == size * k,
            addr < total,
            size > 0,
    ;
    assert(addr + size <= total) by (nonlinear_arith)
        requires
            addr == size * q,
            total == size * k,
            q < k,
            size > 0,
    ;
}

/// Facts shared by the decomposer proofs: the block size of a splittable
/// block is four times its subnet count, and the block fits below `2^32`.
proof fn lemma_split_geometry(b: AddressBlock)
    requires
        b.wf(),
        b.p2p_splittable(),
    ensures
        b.block_size() == 4 * b.p2p_count(),
        b.addr + b.block_size() <= pow2(32),
        b.addr as int % 4 == 0,
{
    lemma_pow2_values();
    lemma_pow2_adds(2, (30 - b.prefix_len) as nat);
    lemma_pow2_adds(b.prefix_len as nat, (32 - b.prefix_len) as nat);
    lemma_pow2_pos((32 - b.prefix_len) as nat);
    lemma_pow2_pos(b.prefix_len as nat);
    lemma_mod_multiples_basic(pow2(b.prefix_len as nat) as int, b.block_size() as int);
    if b.addr > 0 {
        lemma_aligned_below(b.addr as int, b.block_size() as int, pow2(32) as int);
    } else if b.prefix_len > 0 {
        lemma_pow2_strictly_increases((32 - b.prefix_len) as nat, 32nat);
    }
    lemma_mod_mod(b.addr as int, 4, b.p2p_count() as int);
    lemma_small_mod(0, 4);
}

/// Split a block into its /30 point-to-point subnets, lowest first.
/// Fails exactly when the block is not IPv4 or its prefix is longer
/// than 30 bits, so that no /30 fits inside it.
pub fn decompose(block: &AddressBlock) -> (r: Result<Vec<P2PSubnet>, NegotiationError>)
    requires
        block.wf(),
    ensures
        block.p2p_splittable() <==> r is Ok,
        r matches Ok(subs) ==> subs@ == block.spec_decompose(),
        r matches Err(e) ==> e == NegotiationError::InvalidBlock,
{
    if !block.v4 || block.prefix_len > 30 {
        return Err(NegotiationError::InvalidBlock);
    }
    proof {
        lemma_split_geometry(*block);
        lemma_pow2_values();
        lemma_pow2_strictly_increases((30 - block.prefix_len) as nat, 31nat);
        lemma_pow2_adds(30, 1);
    }
    let count_wide: u128 = pow2_u128(30 - block.prefix_len);
    let count: usize = count_wide as usize;
    let mut out: Vec<P2PSubnet> = Vec::new();
    let mut i: usize = 0;
    while i < count
        invariant
            block.wf(),
            block.p2p_splittable(),
            count == block.p2p_count(),
            block.block_size() == 4 * block.p2p_count(),
            block.addr + block.block_size() <= pow2(32),
            pow2(32) == 0x1_0000_0000,
            i <= count,
            out@.len() == i,
            forall|j: int|
                0 <= j < i ==> out@[j] == (P2PSubnet { base: (block.addr + 4 * j) as u128 }),
        decreases count - i,
    {
        out.push(P2PSubnet { base: block.addr + 4 * (i as u128) });
        i = i + 1;
    }
    proof {
        assert(out@ =~= block.spec_decompose());
    }
    Ok(out)
}

/// Law: a splittable block splits into exactly `2^(30 - prefix_len)`
/// well-formed /30 subnets, in strictly ascending order, pairwise
/// disjoint, whose four-address ranges together cover exactly the
/// block's address range.
pub proof fn lemma_decompose_partitions(b: AddressBlock)
    requires
        b.wf(),
        b.p2p_splittable(),
    ensures
        b.spec_decompose().len() == pow2((30 - b.prefix_len) as nat),
        forall|i: int|
            0 <= i < b.spec_decompose().len() ==> (#[trigger] b.spec_decompose()[i]).wf(),
        forall|i: int|
            0 <= i < b.spec_decompose().len() ==> (#[trigger] b.spec_decompose()[i]).base
                == b.addr + 4 * i,
        forall|i: int, j: int|
            0 <= i < j < b.spec_decompose().len() ==> (#[trigger] b.spec_decompose()[i]).base + 4
                <= (#[trigger] b.spec_decompose()[j]).base,
        forall|a: int|
            b.spec_contains_addr(a) <==> exists|i: int|
                0 <= i < b.spec_decompose().len() && (#[trigger] b.spec_decompose()[i]).spec_contains_addr(a),
{
    lemma_split_geometry(b);
    lemma_pow2_values();
    let s = b.spec_decompose();
    let n = b.p2p_count() as int;
    assert forall|i: int| 0 <= i < n implies (#[trigger] s[i]).wf() by {
        assert(s[i].base == b.addr + 4 * i);
        lemma_mod_multiples_vanish(i, b.addr as int, 4);
    }
    assert forall|a: int| b.spec_contains_addr(a) implies exists|i: int|
        0 <= i < n && (#[trigger] s[i]).spec_contains_addr(a) by {
        let off = a - b.addr;
        let i = off / 4;
        lemma_fundamental_div_mod(off, 4);
        lemma_mod_bound(off, 4);
        lemma_multiply_divide_lt(off, n, 4);
        assert(s[i].base == b.addr + 4 * i);
        assert(s[i].spec_contains_addr(a));
    }
    assert forall|a: int|
        (exists|i: int| 0 <= i < n && (#[trigger] s[i]).spec_contains_addr(a)) implies
        b.spec_contains_addr(a) by {
        let i = choose|i: int| 0 <= i < n && (#[trigger] s[i]).spec_contains_addr(a);
        assert(4 * i + 4 <= 4 * n) by (nonlinear_arith)
            requires
                i < n,
        ;
    }
}

/// The name for what `ipnet::IpNet::from_str` returns on given text:
/// `None` on a parse failure, else the address, prefix length, and
/// whether the network is IPv4.
pub uninterp spec fn ipnet_parse(s: Seq<char>) -> Option<(u128, u8, bool)>;

/// Relies on `ipnet::IpNet::from_str`: parses CIDR text such as
/// `"10.0.0.0/29"`; the outcome depends on the text alone. A parsed
/// IPv4 network carries a 32-bit address and a prefix length of at
/// most 32; a parsed IPv6 network a prefix length of at most 128
/// (`Ipv4Net::new` / `Ipv6Net::new` validate the prefix).
#[verifier::external_body]
fn parse_ipnet_raw(s: &str) -> (r: Option<(u128, u8, bool)>)
    ensures
        r == ipnet_parse(s@),
        r matches Some(t) ==> {
            &&& (t.2 ==> t.0 < 0x1_0000_0000 && t.1 <= 32)
            &&& (!t.2 ==> t.1 <= 128)
        },
{
    match <ipnet::IpNet as core::str::FromStr>::from_str(s) {
        Ok(ipnet::IpNet::V4(n)) => Some((u32::from(n.addr()) as u128, n.prefix_len(), true)),
        Ok(ipnet::IpNet::V6(n)) => Some((u128::from(n.addr()), n.prefix_len(), false)),
        Err(_) => None,
    }
}

/// What parsing the given text yields: the normalized block, or `None`.
pub open spec fn spec_parse_block(s: Seq<char>) -> Option<AddressBlock> {
    match ipnet_parse(s) {
        Option::None => Option::None,
        Option::Some(t) => Option::Some(spec_normalized(t.2, t.0, t.1)),
    }
}

/// Parse CIDR text into a normalized address block. Fails exactly on
/// text that is not a well-formed IPv4 or IPv6 network prefix.
pub fn address_parser(string: &str) -> (r: Result<AddressBlock, NegotiationError>)
    ensures
        ipnet_parse(string@) is Some <==> r is Ok,
        r matches Ok(b) ==> Some(b) == spec_parse_block(string@) && b.wf(),
        r matches Err(e) ==> e == NegotiationError::InvalidBlock,
{
    match parse_ipnet_raw(string) {
        None => Err(NegotiationError::InvalidBlock),
        Some((addr, prefix_len, v4)) => {
            proof {
                lemma_pow2_values();
            }
            match AddressBlock::new(v4, addr, prefix_len) {
                Ok(b) => Ok(b),
                Err(e) => Err(e),
            }
        },
    }
}

} // verus!
