use vstd::prelude::*;

use crate::cidrs::AddressBlock;
use crate::cidrs::P2PSubnet;
use crate::models::NegotiationResponse;

verus! {

use vstd::arithmetic::power2::pow2;
use vstd::arithmetic::power2::lemma_pow2_adds;
use vstd::arithmetic::power2::lemma_pow2_strictly_increases;
use vstd::arithmetic::power2::lemma2_to64;
use vstd::arithmetic::div_mod::lemma_fundamental_div_mod;
use vstd::arithmetic::div_mod::lemma_mod_bound;
use vstd::arithmetic::div_mod::lemma_multiply_divide_lt;

// The reply travels as ASCII bytes in a fixed-width layout: the /30
// network address, the initiator's address and the responder's address
// as eight hex digits each, then either `-` for no advertised network
// or the advertised block as a version tag (`4` or `6`), its address
// as eight or thirty-two hex digits, and its prefix length as two.

/// The ASCII hex digit (lowercase) for a value below sixteen.
pub open spec fn hex_char_of(d: nat) -> u8 {
    if d < 10 {
        (0x30 + d) as u8
    } else {
        (0x57 + d) as u8
    }
}

/// Whether the byte is an ASCII hex digit as this codec writes them.
pub open spec fn is_hex_digit(b: u8) -> bool {
    (0x30 <= b <= 0x39) || (0x61 <= b <= 0x66)
}

/// The value of an ASCII hex digit.
pub open spec fn hex_val(b: u8) -> nat {
    if b <= 0x39 {
        (b - 0x30) as nat
    } else {
        (b - 0x57) as nat
    }
}

/// `n` written as exactly `w` hex digits, most significant first.
pub open spec fn spec_hex(n: nat, w: nat) -> Seq<u8>
    decreases w,
{
    if w == 0 {
        Seq::empty()
    } else {
        spec_hex(n / 16, (w - 1) as nat).push(hex_char_of(n % 16))
    }
}

/// Every byte of the sequence is a hex digit.
pub open spec fn all_hex(s: Seq<u8>) -> bool {
    forall|i: int| 0 <= i < s.len() ==> is_hex_digit(#[trigger] s[i])
}

/// The number a sequence of hex digits denotes.
pub open spec fn spec_hex_value(s: Seq<u8>) -> nat
    decreases s.len(),
{
    if s.len() == 0 {
        0nat
    } else {
        spec_hex_value(s.drop_last()) * 16 + hex_val(s.last())
    }
}

/// Writing `n` as `w` hex digits and reading them back yields `n`, and
/// what was written is `w` hex digits.
pub proof fn lemma_hex_round_trip(n: nat, w: nat)
    requires
        n < pow2(4 * w),
    ensures
        spec_hex(n, w).len() == w,
        all_hex(spec_hex(n, w)),
        spec_hex_value(spec_hex(n, w)) == n,
    decreases w,
{
    if w == 0 {
        assert(pow2(0) == 1) by {
            lemma2_to64();
        }
    } else {
        lemma_pow2_adds(4, 4 * (w - 1) as nat);
        assert(pow2(4) == 16) by {
            lemma2_to64();
        }
        lemma_multiply_divide_lt(n as int, pow2(4 * (w - 1) as nat) as int, 16);
        lemma_hex_round_trip(n / 16, (w - 1) as nat);
        lemma_fundamental_div_mod(n as int, 16);
        lemma_mod_bound(n as int, 16);
        let s = spec_hex(n, w);
        assert(s.drop_last() =~= spec_hex(n / 16, (w - 1) as nat));
    }
}

/// Append `n` as exactly `w` hex digits, most significant first.
fn push_hex(out: &mut Vec<u8>, n: u128, w: usize)
    requires
        (n as nat) < pow2((4 * w) as nat),
        w <= 32,
    ensures
        final(out)@ == old(out)@ + spec_hex(n as nat, w as nat),
    decreases w,
{
    if w == 0 {
        proof {
            assert(out@ =~= out@ + spec_hex(n as nat, 0));
        }
        return ;
    }
    proof {
        lemma_pow2_adds(4, (4 * (w - 1)) as nat);
        assert(pow2(4) == 16) by {
            lemma2_to64();
        }
        lemma_multiply_divide_lt(n as int, pow2((4 * (w - 1)) as nat) as int, 16);
    }
    push_hex(out, n / 16, w - 1);
    let d: u8 = (n % 16) as u8;
    let c: u8 = if d < 10 {
        0x30 + d
    } else {
        0x57 + d
    };
    out.push(c);
    proof {
        assert(out@ =~= old(out)@ + spec_hex(n as nat, w as nat));
    }
}

/// Read `w` hex digits at `start`; `None` exactly when a byte there is
/// not a hex digit.
fn parse_hex(body: &Vec<u8>, start: usize, w: usize) -> (r: Option<u128>)
    requires
        start + w <= body@.len(),
        w <= 32,
    ensures
        all_hex(body@.subrange(start as int, (start + w) as int)) <==> r is Some,
        r matches Some(n) ==> (n as nat) == spec_hex_value(
            body@.subrange(start as int, (start + w) as int),
        ) && (n as nat) < pow2((4 * w) as nat),
{
    let ghost sub = body@.subrange(start as int, (start + w) as int);
    let blen: usize = body.len();
    let mut acc: u128 = 0;
    let mut i: usize = 0;
    proof {
        assert(sub.take(0) =~= Seq::<u8>::empty());
        lemma2_to64();
    }
    while i < w
        invariant
            i <= w,
            w <= 32,
            start + w <= blen,
            blen == body@.len(),
            sub == body@.subrange(start as int, (start + w) as int),
            sub.len() == w,
            forall|j: int| 0 <= j < i ==> is_hex_digit(#[trigger] sub[j]),
            acc as nat == spec_hex_value(sub.take(i as int)),
            (acc as nat) < pow2((4 * i) as nat),
            pow2(0) == 1,
        decreases w - i,
    {
        let b: u8 = body[start + i];
        proof {
            assert(sub[i as int] == body@[(start + i) as int]);
        }
        let d: u8;
        if 0x30 <= b && b <= 0x39 {
            d = b - 0x30;
        } else if 0x61 <= b && b <= 0x66 {
            d = b - 0x57;
        } else {
            proof {
                assert(!is_hex_digit(sub[i as int]));
            }
            return None;
        }
        proof {
            lemma_pow2_adds((4 * i) as nat, 4);
            assert(pow2(4) == 16) by {
                lemma2_to64();
            }
            if 4 * i + 4 < 128 {
                lemma_pow2_strictly_increases((4 * i + 4) as nat, 128nat);
            }
            vstd::arithmetic::power2::lemma2_to64_rest();
            lemma_pow2_adds(64, 64);
            assert(sub.take(i + 1).drop_last() =~= sub.take(i as int));
            assert(sub.take(i + 1).last() == sub[i as int]);
        }
        acc = acc * 16 + (d as u128);
        i = i + 1;
    }
    proof {
        assert(sub.take(w as int) =~= sub);
    }
    Some(acc)
}

/// The reply encoded as bytes, in the fixed-width layout above.
pub open spec fn spec_encode_response(r: NegotiationResponse) -> Seq<u8> {
    spec_hex(r.net.base as nat, 8) + spec_hex(r.free_ip as nat, 8) + spec_hex(
        r.assigned_ip as nat,
        8,
    ) + match r.advertised_network {
        Option::None => seq![0x2du8],
        Option::Some(b) => if b.v4 {
            seq![0x34u8] + spec_hex(b.addr as nat, 8) + spec_hex(b.prefix_len as nat, 2)
        } else {
            seq![0x36u8] + spec_hex(b.addr as nat, 32) + spec_hex(b.prefix_len as nat, 2)
        },
    }
}

/// The advertised-network block a decode yields from its address and
/// prefix digits, checked for validity.
pub open spec fn spec_decode_block(v4: bool, addr_s: Seq<u8>, pre_s: Seq<u8>) -> Option<
    AddressBlock,
> {
    if all_hex(addr_s) && all_hex(pre_s) {
        let b = AddressBlock {
            v4,
            addr: spec_hex_value(addr_s) as u128,
            prefix_len: spec_hex_value(pre_s) as u8,
        };
        if b.wf() {
            Option::Some(b)
        } else {
            Option::None
        }
    } else {
        Option::None
    }
}

/// What decoding the given bytes yields: the reply they encode, or
/// `None` for bytes this codec never writes.
pub open spec fn spec_decode_response(s: Seq<u8>) -> Option<NegotiationResponse> {
    if s.len() < 25 {
        Option::None
    } else {
        let base_s = s.subrange(0, 8);
        let free_s = s.subrange(8, 16);
        let asg_s = s.subrange(16, 24);
        if !(all_hex(base_s) && all_hex(free_s) && all_hex(asg_s)) {
            Option::None
        } else {
            let net = P2PSubnet { base: spec_hex_value(base_s) as u128 };
            if !net.wf() {
                Option::None
            } else if s[24] == 0x2d && s.len() == 25 {
                Option::Some(
                    NegotiationResponse {
                        net,
                        free_ip: spec_hex_value(free_s) as u128,
                        assigned_ip: spec_hex_value(asg_s) as u128,
                        advertised_network: Option::None,
                    },
                )
            } else if s[24] == 0x34 && s.len() == 35 {
                match spec_decode_block(true, s.subrange(25, 33), s.subrange(33, 35)) {
                    Option::None => Option::None,
                    Option::Some(b) => Option::Some(
                        NegotiationResponse {
                            net,
                            free_ip: spec_hex_value(free_s) as u128,
                            assigned_ip: spec_hex_value(asg_s) as u128,
                            advertised_network: Option::Some(b),
                        },
                    ),
                }
            } else if s[24] == 0x36 && s.len() == 59 {
                match spec_decode_block(false, s.subrange(25, 57), s.subrange(57, 59)) {
                    Option::None => Option::None,
                    Option::Some(b) => Option::Some(
                        NegotiationResponse {
                            net,
                            free_ip: spec_hex_value(free_s) as u128,
                            assigned_ip: spec_hex_value(asg_s) as u128,
                            advertised_network: Option::Some(b),
                        },
                    ),
                }
            } else {
                Option::None
            }
        }
    }
}

/// Encode a reply for the wire.
pub fn encode_response(r: &NegotiationResponse) -> (out: Vec<u8>)
    requires
        r.wf(),
    ensures
        out@ == spec_encode_response(*r),
{
    proof {
        lemma2_to64();
        vstd::arithmetic::power2::lemma2_to64_rest();
        lemma_pow2_adds(64, 64);
    }
    let mut out: Vec<u8> = Vec::new();
    push_hex(&mut out, r.net.base, 8);
    push_hex(&mut out, r.free_ip, 8);
    push_hex(&mut out, r.assigned_ip, 8);
    match &r.advertised_network {
        None => {
            out.push(0x2d);
        },
        Some(b) => {
            if b.v4 {
                out.push(0x34);
                push_hex(&mut out, b.addr, 8);
                push_hex(&mut out, b.prefix_len as u128, 2);
            } else {
                out.push(0x36);
                push_hex(&mut out, b.addr, 32);
                push_hex(&mut out, b.prefix_len as u128, 2);
            }
        },
    }
    proof {
        assert(out@ =~= spec_encode_response(*r));
    }
    out
}

/// Decode a reply from the wire; `None` exactly on bytes this codec
/// never writes. A decoded reply is well-formed.
pub fn decode_response(body: &Vec<u8>) -> (r: Option<NegotiationResponse>)
    ensures
        r == spec_decode_response(body@),
        r matches Some(resp) ==> resp.wf(),
{
    proof {
        lemma2_to64();
        vstd::arithmetic::power2::lemma2_to64_rest();
        lemma_pow2_adds(64, 64);
    }
    if body.len() < 25 {
        return None;
    }
    let base_v = match parse_hex(body, 0, 8) {
        None => {
            return None;
        },
        Some(v) => v,
    };
    let free_v = match parse_hex(body, 8, 8) {
        None => {
            return None;
        },
        Some(v) => v,
    };
    let asg_v = match parse_hex(body, 16, 8) {
        None => {
            return None;
        },
        Some(v) => v,
    };
    if base_v % 4 != 0 || base_v > 0xffff_fffc {
        return None;
    }
    let net = P2PSubnet { base: base_v };
    let marker: u8 = body[24];
    if marker == 0x2d && body.len() == 25 {
        Some(NegotiationResponse { net, free_ip: free_v, assigned_ip: asg_v, advertised_network: None })
    } else if marker == 0x34 && body.len() == 35 {
        let addr_v = match parse_hex(body, 25, 8) {
            None => {
                return None;
            },
            Some(v) => v,
        };
        let pre_v = match parse_hex(body, 33, 2) {
            None => {
                return None;
            },
            Some(v) => v,
        };
        match AddressBlock::check_decoded(true, addr_v, pre_v as u8) {
            None => None,
            Some(b) => Some(
                NegotiationResponse {
                    net,
                    free_ip: free_v,
                    assigned_ip: asg_v,
                    advertised_network: Some(b),
                },
            ),
        }
    } else if marker == 0x36 && body.len() == 59 {
        let addr_v = match parse_hex(body, 25, 32) {
            None => {
                return None;
            },
            Some(v) => v,
        };
        let pre_v = match parse_hex(body, 57, 2) {
            None => {
                return None;
            },
            Some(v) => v,
        };
        match AddressBlock::check_decoded(false, addr_v, pre_v as u8) {
            None => None,
            Some(b) => Some(
                NegotiationResponse {
                    net,
                    free_ip: free_v,
                    assigned_ip: asg_v,
                    advertised_network: Some(b),
                },
            ),
        }
    } else {
        None
    }
}

/// Law: decoding what was encoded yields the identical reply — the
/// same selected subnet, host addresses, and advertised network.
pub proof fn lemma_response_round_trip(r: NegotiationResponse)
    requires
        r.wf(),
    ensures
        spec_decode_response(spec_encode_response(r)) == Some(r),
{
    lemma2_to64();
    vstd::arithmetic::power2::lemma2_to64_rest();
    lemma_pow2_adds(64, 64);
    let s = spec_encode_response(r);
    lemma_hex_round_trip(r.net.base as nat, 8);
    lemma_hex_round_trip(r.free_ip as nat, 8);
    lemma_hex_round_trip(r.assigned_ip as nat, 8);
    let base_h = spec_hex(r.net.base as nat, 8);
    let free_h = spec_hex(r.free_ip as nat, 8);
    let asg_h = spec_hex(r.assigned_ip as nat, 8);
    assert(s.subrange(0, 8) =~= base_h);
    assert(s.subrange(8, 16) =~= free_h);
    assert(s.subrange(16, 24) =~= asg_h);
    match r.advertised_network {
        Option::None => {
            assert(s.len() == 25 && s[24] == 0x2d);
        },
        Option::Some(b) => {
            lemma_hex_round_trip(b.prefix_len as nat, 2);
            if b.v4 {
                lemma_hex_round_trip(b.addr as nat, 8);
                assert(s.len() == 35 && s[24] == 0x34);
                assert(s.subrange(25, 33) =~= spec_hex(b.addr as nat, 8));
                assert(s.subrange(33, 35) =~= spec_hex(b.prefix_len as nat, 2));
            } else {
                lemma_hex_round_trip(b.addr as nat, 32);
                assert(s.len() == 59 && s[24] == 0x36);
                assert(s.subrange(25, 57) =~= spec_hex(b.addr as nat, 32));
                assert(s.subrange(57, 59) =~= spec_hex(b.prefix_len as nat, 2));
            }
        },
    }
}

} // verus!
