//! The address ranges that a network gets where none are asked for.
use vstd::prelude::*;

use crate::net::{
    block, block_start, cidr4, ipv4_text, octet, ula_addr, ula_text, Ipv4Net, Ipv6Net,
};
use crate::text::{decimal, decimal_text, hex_byte, push_hex_byte};

verus! {

/// The BLAKE3 hash of some bytes.
pub uninterp spec fn blake3_of(bytes: Seq<u8>) -> Seq<u8>;

/// `blake3::hash` gives the hash of some bytes, thirty-two bytes long.
#[verifier::external_body]
pub(crate) fn blake3_hash(bytes: &[u8; 16]) -> (r: [u8; 32])
    ensures
        r@ == blake3_of(bytes@),
{
    *blake3::hash(bytes).as_bytes()
}

/// The first address of the IPv4 network that a hash selects: `100.S.T.0`, where `S` is 64 and
/// the low six bits of the sixth byte together, and `T` is the seventh byte.
pub open spec fn derived_ipv4(hash: Seq<u8>) -> u32 {
    (100 * 0x100_0000 + (64 + hash[5] % 64) * 0x1_0000 + hash[6] * 0x100) as u32
}

/// The IPv4 network that a hash selects.
pub open spec fn derived_overlay_v4(hash: Seq<u8>) -> Seq<char> {
    cidr4(derived_ipv4(hash), 24)
}

/// The IPv6 network that a hash selects: `fd` and the first five bytes.
pub open spec fn derived_overlay_v6(hash: Seq<u8>) -> Seq<char> {
    ula_text(hash.take(5))
}

/// The IPv6 network that a hash selects.
pub fn derive_ipv6_ula(hash: &[u8; 32]) -> (r: String)
    ensures
        r@ == derived_overlay_v6(hash@),
{
    let mut out: String = String::new();
    out.push('f');
    out.push('d');
    push_hex_byte(&mut out, hash[0]);
    out.push(':');
    push_hex_byte(&mut out, hash[1]);
    push_hex_byte(&mut out, hash[2]);
    out.push(':');
    push_hex_byte(&mut out, hash[3]);
    push_hex_byte(&mut out, hash[4]);
    out.push(':');
    out.push(':');
    out.push('/');
    out.push('4');
    out.push('8');
    assert(out@ =~= derived_overlay_v6(hash@));
    out
}

/// The IPv4 network that a hash selects.
pub fn derive_ipv4_overlay(hash: &[u8; 32]) -> (r: String)
    ensures
        r@ == derived_overlay_v4(hash@),
{
    let second: u32 = 64 + (hash[5] % 64) as u32;
    let third: u32 = hash[6] as u32;
    let ip: u32 = 100 * 0x100_0000 + second * 0x1_0000 + third * 0x100;
    let mut out: String = ipv4_text(ip);
    out.push('/');
    out.append(decimal_text(24).as_str());
    assert(out@ =~= derived_overlay_v4(hash@));
    out
}

/// The IPv4 and the IPv6 network that a network of this identifier gets.
pub fn derive_overlay_prefixes(network_id: &[u8; 16]) -> (r: (String, String))
    ensures
        r.0@ == derived_overlay_v4(blake3_of(network_id@)),
        r.1@ == derived_overlay_v6(blake3_of(network_id@)),
        blake3_of(network_id@).len() == 32,
{
    let hash: [u8; 32] = blake3_hash(network_id);
    let v6: String = derive_ipv6_ula(&hash);
    let v4: String = derive_ipv4_overlay(&hash);
    (v4, v6)
}

/// Whatever the hash, the IPv4 network is a block of 256 addresses inside `100.64.0.0/10`.
pub proof fn law_derived_ipv4_shared_space(hash: Seq<u8>)
    requires
        hash.len() == 32,
    ensures
        ({
            let net = Ipv4Net { addr: derived_ipv4(hash), prefix_len: 24 };
            let space = Ipv4Net { addr: 0x6440_0000, prefix_len: 10 };
            &&& net.first() == derived_ipv4(hash)
            &&& net.last() == net.first() + 255
            &&& space.has(net.first())
            &&& space.has(net.last())
        }),
{
    vstd::arithmetic::power2::lemma2_to64();
    assert(block(8) == 0x100);
    assert(block(22) == 0x40_0000);
    assert(block_start(derived_ipv4(hash) as int, 8) == derived_ipv4(hash));
    assert(block_start(0x6440_0000int, 22) == 0x6440_0000);
}

/// Whatever the hash, the IPv6 network is a block inside `fd00::/8`, the unique local addresses.
pub proof fn law_derived_ipv6_unique_local(hash: Seq<u8>)
    requires
        hash.len() == 32,
    ensures
        ({
            let net = Ipv6Net { addr: ula_addr(hash.take(5)), prefix_len: 48 };
            &&& net.first() == net.addr
            &&& 0xfd00_0000_0000_0000_0000_0000_0000_0000 <= net.first()
            &&& net.last() < 0xfe00_0000_0000_0000_0000_0000_0000_0000
        }),
{
    let b = hash.take(5);
    let head = ((((0xfd * 256 + b[0]) * 256 + b[1]) * 256 + b[2]) * 256 + b[3]) * 256 + b[4];
    let unit = 0x1_0000_0000_0000_0000_0000int;
    vstd::arithmetic::power2::lemma2_to64();
    vstd::arithmetic::power2::lemma_pow2_adds(64, 16);
    assert(0x1_0000_0000_0000_0000int * 0x1_0000int == unit) by (nonlinear_arith)
        requires
            unit == 0x1_0000_0000_0000_0000_0000int,
    ;
    assert(block(80) == unit);
    assert((head * unit) % unit == 0) by (nonlinear_arith)
        requires
            unit > 0,
    ;
}

/// The ranges of a network that asks for none are told by the hash of its identifier: an IPv4 range
/// of 256 addresses by the sixth and the seventh byte, and a unique local IPv6 range by the first
/// five.
pub proof fn law_derived_ranges(hash: Seq<u8>)
    requires
        hash.len() == 32,
    ensures
        derived_overlay_v4(hash) == decimal(100) + seq!['.'] + decimal(
            (64 + hash[5] % 64) as nat,
        ) + seq!['.'] + decimal(hash[6] as nat) + seq!['.'] + decimal(0) + seq!['/'] + decimal(24),
        derived_overlay_v6(hash) == seq!['f', 'd'] + hex_byte(hash[0]) + seq![':'] + hex_byte(
            hash[1],
        ) + hex_byte(hash[2]) + seq![':'] + hex_byte(hash[3]) + hex_byte(hash[4]) + seq![
            ':',
            ':',
            '/',
            '4',
            '8',
        ],
{
    let ip = derived_ipv4(hash);
    assert(octet(ip, 0) == 100);
    assert(octet(ip, 1) == 64 + hash[5] % 64);
    assert(octet(ip, 2) == hash[6]);
    assert(octet(ip, 3) == 0);
}

} // verus!
