//! Addresses and the networks they belong to.
use hickory_proto::rr::rdata::{A, AAAA};
use vstd::arithmetic::power2::{lemma_pow2_adds, lemma_pow2_pos, lemma_pow2_unfold, pow2};
use vstd::prelude::*;

use crate::text::{
    chars_of, decimal, decimal_text, digits_value, first_index, hex_byte, is_digit, law_decimal,
    lemma_decimal, lemma_decimal_lacks, lemma_delimited, lemma_first_index, number_value,
    parse_number, skip_chars, split_at, split_once, split_once_at,
};

verus! {

/// An IPv4 network: an address in it and the number of bits that its addresses share.
#[derive(Clone, Copy, Debug, PartialEq, Eq, Structural)]
pub struct Ipv4Net {
    pub addr: u32,
    pub prefix_len: u8,
}

/// An IPv6 network: an address in it and the number of bits that its addresses share.
#[derive(Clone, Copy, Debug, PartialEq, Eq, Structural)]
pub struct Ipv6Net {
    pub addr: u128,
    pub prefix_len: u8,
}

/// How many addresses share all but the last `bits` bits.
pub open spec fn block(bits: int) -> int {
    pow2(bits as nat) as int
}

/// The first address of the block of `2^bits` addresses that holds `addr`.
pub open spec fn block_start(addr: int, bits: int) -> int {
    addr - addr % block(bits)
}

/// The largest number of `bits` bits.
fn low_mask(bits: u8) -> (r: u128)
    requires
        bits <= 128,
    ensures
        r == block(bits as int) - 1,
{
    let mut r: u128 = 0;
    let mut i: u8 = 0;
    proof {
        vstd::arithmetic::power2::lemma2_to64();
    }
    while i < bits
        invariant
            i <= bits <= 128,
            r == block(i as int) - 1,
        decreases bits - i,
    {
        proof {
            lemma_pow2_unfold((i + 1) as nat);
            lemma_block_fits(i + 1, 128);
            lemma_pow2_128();
        }
        r = r * 2 + 1;
        i = i + 1;
    }
    r
}

proof fn lemma_pow2_128()
    ensures
        block(128) == 0x1_0000_0000_0000_0000_0000_0000_0000_0000int,
        block(32) == 0x1_0000_0000int,
        block(0) == 1,
{
    vstd::arithmetic::power2::lemma2_to64();
    lemma_pow2_adds(64, 64);
    assert(0x1_0000_0000_0000_0000int * 0x1_0000_0000_0000_0000int
        == 0x1_0000_0000_0000_0000_0000_0000_0000_0000int) by (nonlinear_arith);
}

/// A shorter block divides a longer one.
proof fn lemma_block_fits(bits: int, total: int)
    requires
        0 <= bits <= total,
    ensures
        block(bits) > 0,
        block(total) == block(bits) * block(total - bits),
        block(bits) <= block(total),
{
    lemma_pow2_pos(bits as nat);
    lemma_pow2_pos((total - bits) as nat);
    lemma_pow2_adds(bits as nat, (total - bits) as nat);
    let a = block(bits);
    let b = block(total - bits);
    assert(a <= a * b) by (nonlinear_arith)
        requires
            a > 0,
            b > 0,
    ;
}

/// A block ends where the address space ends, or before.
pub proof fn lemma_block_start(addr: int, bits: int, total: int)
    requires
        0 <= bits <= total,
        0 <= addr < block(total),
    ensures
        0 <= block_start(addr, bits) <= addr < block_start(addr, bits) + block(bits),
        block_start(addr, bits) + block(bits) <= block(total),
        block_start(addr, bits) % block(bits) == 0,
        block(bits) > 0,
{
    lemma_block_fits(bits, total);
    let size = block(bits);
    let count = block(total - bits);
    let q = addr / size;
    let r = addr % size;
    assert(addr == size * q + r && 0 <= r < size && 0 <= q) by (nonlinear_arith)
        requires
            size > 0,
            addr >= 0,
            q == addr / size,
            r == addr % size,
    ;
    assert(q < count) by (nonlinear_arith)
        requires
            size * q + r < size * count,
            0 <= r,
            size > 0,
    ;
    assert(size * q + size <= size * count) by (nonlinear_arith)
        requires
            q < count,
            size > 0,
    ;
    assert((size * q) % size == 0) by (nonlinear_arith)
        requires
            size > 0,
    ;
    assert(size * q >= 0) by (nonlinear_arith)
        requires
            size > 0,
            q >= 0,
    ;
}

impl Ipv4Net {
    /// Whether the number of shared bits is one that an address has.
    pub open spec fn wf(self) -> bool {
        self.prefix_len <= 32
    }

    /// The number of bits in which the addresses of the network differ.
    pub open spec fn host_bits(self) -> int {
        32 - self.prefix_len
    }

    /// The first address of the network.
    pub open spec fn first(self) -> int {
        block_start(self.addr as int, self.host_bits())
    }

    /// The last address of the network.
    pub open spec fn last(self) -> int {
        self.first() + block(self.host_bits()) - 1
    }

    /// Whether the address belongs to the network.
    pub open spec fn has(self, ip: int) -> bool {
        self.first() <= ip <= self.last()
    }

    /// The addresses of a network are addresses.
    pub proof fn lemma_range(self)
        requires
            self.wf(),
        ensures
            0 <= self.first() <= self.addr <= self.last() <= u32::MAX,
            block(self.host_bits()) > 0,
    {
        lemma_pow2_128();
        lemma_block_start(self.addr as int, self.host_bits(), 32);
    }

    /// The first address of the network.
    pub fn network(&self) -> (r: u32)
        requires
            self.wf(),
        ensures
            r == self.first(),
    {
        proof {
            self.lemma_range();
            lemma_pow2_128();
            lemma_block_fits(self.host_bits(), 32);
        }
        let mask: u128 = low_mask(32 - self.prefix_len);
        self.addr - (self.addr as u128 % (mask + 1)) as u32
    }

    /// Whether the address belongs to the network.
    pub fn contains(&self, ip: u32) -> (r: bool)
        requires
            self.wf(),
        ensures
            r == self.has(ip as int),
    {
        proof {
            self.lemma_range();
            lemma_pow2_128();
            lemma_block_fits(self.host_bits(), 32);
        }
        let first: u32 = self.network();
        let mask: u128 = low_mask(32 - self.prefix_len);
        first <= ip && (ip - first) as u128 <= mask
    }
}

impl Ipv6Net {
    /// Whether the number of shared bits is one that an address has.
    pub open spec fn wf(self) -> bool {
        self.prefix_len <= 128
    }

    /// The number of bits in which the addresses of the network differ.
    pub open spec fn host_bits(self) -> int {
        128 - self.prefix_len
    }

    /// The first address of the network.
    pub open spec fn first(self) -> int {
        block_start(self.addr as int, self.host_bits())
    }

    /// The last address of the network.
    pub open spec fn last(self) -> int {
        self.first() + block(self.host_bits()) - 1
    }

    /// Whether the address belongs to the network.
    pub open spec fn has(self, ip: int) -> bool {
        self.first() <= ip <= self.last()
    }

    /// The addresses of a network are addresses.
    pub proof fn lemma_range(self)
        requires
            self.wf(),
        ensures
            0 <= self.first() <= self.addr <= self.last() <= u128::MAX,
            block(self.host_bits()) > 0,
    {
        lemma_pow2_128();
        lemma_block_start(self.addr as int, self.host_bits(), 128);
    }

    /// The first address of the network.
    pub fn network(&self) -> (r: u128)
        requires
            self.wf(),
        ensures
            r == self.first(),
    {
        proof {
            self.lemma_range();
            lemma_pow2_128();
        }
        if self.prefix_len == 0 {
            return 0;
        }
        proof {
            lemma_block_fits(self.host_bits(), 127);
            lemma_pow2_unfold(128);
        }
        let mask: u128 = low_mask(128 - self.prefix_len);
        self.addr - self.addr % (mask + 1)
    }

    /// Whether the address belongs to the network.
    pub fn contains(&self, ip: u128) -> (r: bool)
        requires
            self.wf(),
        ensures
            r == self.has(ip as int),
    {
        proof {
            self.lemma_range();
        }
        let first: u128 = self.network();
        let mask: u128 = low_mask(128 - self.prefix_len);
        first <= ip && ip - first <= mask
    }
}

/// Whether one of the networks holds the first address of the other.
pub open spec fn overlap4(a: Ipv4Net, b: Ipv4Net) -> bool {
    a.has(b.first()) || b.has(a.first())
}

/// Whether one of the networks holds the first address of the other.
pub open spec fn overlap6(a: Ipv6Net, b: Ipv6Net) -> bool {
    a.has(b.first()) || b.has(a.first())
}

/// Whether two networks overlap.
pub fn ipv4_nets_overlap(a: &Ipv4Net, b: &Ipv4Net) -> (r: bool)
    requires
        a.wf(),
        b.wf(),
    ensures
        r == overlap4(*a, *b),
{
    a.contains(b.network()) || b.contains(a.network())
}

/// Whether two networks overlap.
pub fn ipv6_nets_overlap(a: &Ipv6Net, b: &Ipv6Net) -> (r: bool)
    requires
        a.wf(),
        b.wf(),
    ensures
        r == overlap6(*a, *b),
{
    a.contains(b.network()) || b.contains(a.network())
}

/// Two IPv4 networks overlap exactly where they have an address in common, whichever comes first.
pub proof fn law_overlap4(a: Ipv4Net, b: Ipv4Net)
    requires
        a.wf(),
        b.wf(),
    ensures
        overlap4(a, b) <==> exists|ip: u32| #[trigger] a.has(ip as int) && b.has(ip as int),
        overlap4(a, b) == overlap4(b, a),
{
    a.lemma_range();
    b.lemma_range();
    if overlap4(a, b) {
        let ip: u32 = if a.has(b.first()) {
            b.first() as u32
        } else {
            a.first() as u32
        };
        assert(a.has(ip as int) && b.has(ip as int));
    }
}

/// Two IPv6 networks overlap exactly where they have an address in common, whichever comes first.
pub proof fn law_overlap6(a: Ipv6Net, b: Ipv6Net)
    requires
        a.wf(),
        b.wf(),
    ensures
        overlap6(a, b) <==> exists|ip: u128| #[trigger] a.has(ip as int) && b.has(ip as int),
        overlap6(a, b) == overlap6(b, a),
{
    a.lemma_range();
    b.lemma_range();
    if overlap6(a, b) {
        let ip: u128 = if a.has(b.first()) {
            b.first() as u128
        } else {
            a.first() as u128
        };
        assert(a.has(ip as int) && b.has(ip as int));
    }
}

/// How far the last address that a node can have lies behind the first address of the network:
/// all but the first and the last address can be had, where there are such addresses.
pub open spec fn last_offset4(net: Ipv4Net) -> Option<u32> {
    if net.prefix_len >= 31 {
        None
    } else {
        Some((block(net.host_bits()) - 2) as u32)
    }
}

/// The offset of the address that the first node of a network gets.
pub open spec fn first_offset4(net: Ipv4Net) -> Option<u32> {
    match last_offset4(net) {
        Some(last) => if last >= 10 {
            Some(10u32)
        } else if last >= 1 {
            Some(1u32)
        } else {
            None
        },
        None => None,
    }
}

/// How far the last address of the network lies behind its first.
pub open spec fn last_offset6(net: Ipv6Net) -> u128 {
    (block(net.host_bits()) - 1) as u128
}

/// The offset of the address that the first node of a network gets.
pub open spec fn first_offset6(net: Ipv6Net) -> u128 {
    if last_offset6(net) >= 10 {
        10
    } else if last_offset6(net) >= 1 {
        1
    } else {
        0
    }
}

/// How far the last address that a node can have lies behind the first address of the network.
pub fn max_ipv4_offset(net: &Ipv4Net) -> (r: Option<u32>)
    requires
        net.wf(),
    ensures
        r == last_offset4(*net),
        r matches Some(last) ==> last == block(net.host_bits()) - 2 && last >= 2,
{
    if net.prefix_len >= 31 {
        return None;
    }
    proof {
        lemma_pow2_128();
        lemma_block_fits(net.host_bits(), 32);
        lemma_block_fits(2, net.host_bits());
        lemma_pow2_unfold(2);
        lemma_pow2_unfold(1);
    }
    let mask: u128 = low_mask(32 - net.prefix_len);
    Some((mask - 1) as u32)
}

/// The offset of the address that the first node of a network gets.
pub fn initial_ipv4_offset(net: &Ipv4Net) -> (r: Option<u32>)
    requires
        net.wf(),
    ensures
        r == first_offset4(*net),
{
    match max_ipv4_offset(net) {
        Some(max) => if max >= 10 {
            Some(10)
        } else if max >= 1 {
            Some(1)
        } else {
            None
        },
        None => None,
    }
}

/// How far the last address of the network lies behind its first.
pub fn max_ipv6_offset(net: &Ipv6Net) -> (r: u128)
    requires
        net.wf(),
    ensures
        r == last_offset6(*net),
        r == block(net.host_bits()) - 1,
{
    low_mask(128 - net.prefix_len)
}

/// The offset of the address that the first node of a network gets.
pub fn initial_ipv6_offset(net: &Ipv6Net) -> (r: u128)
    requires
        net.wf(),
    ensures
        r == first_offset6(*net),
{
    let max: u128 = max_ipv6_offset(net);
    if max >= 10 {
        10
    } else if max >= 1 {
        1
    } else {
        0
    }
}

/// A range that leaves at least four bits to its addresses gives nodes addresses from the tenth
/// behind its first on, one that leaves two or three bits from the next behind its first on, and a
/// smaller one gives none.
pub proof fn law_first_offset4(net: Ipv4Net)
    requires
        net.wf(),
    ensures
        first_offset4(net) == (if net.prefix_len <= 28 {
            Some(10u32)
        } else if net.prefix_len <= 30 {
            Some(1u32)
        } else {
            None
        }),
        net.prefix_len <= 30 ==> last_offset4(net) is Some && last_offset4(net)->0 == pow2(
            (32 - net.prefix_len) as nat,
        ) - 2,
{
    lemma_block_fits(net.host_bits(), 32);
    lemma_small_blocks();
    lemma_pow2_128();
    if net.prefix_len <= 30 {
        lemma_block_fits(2, net.host_bits());
    }
    if net.prefix_len <= 28 {
        lemma_block_fits(4, net.host_bits());
    }
}

/// A range that leaves at least four bits to its addresses gives nodes addresses from the tenth
/// behind its first on, one that leaves one to three bits from the next behind its first on, and a
/// range of a single address gives that one.
pub proof fn law_first_offset6(net: Ipv6Net)
    requires
        net.wf(),
    ensures
        first_offset6(net) == (if net.prefix_len <= 124 {
            10u128
        } else if net.prefix_len <= 127 {
            1u128
        } else {
            0u128
        }),
        last_offset6(net) == pow2((128 - net.prefix_len) as nat) - 1,
{
    lemma_block_fits(net.host_bits(), 128);
    lemma_small_blocks();
    lemma_pow2_128();
    if net.prefix_len <= 124 {
        lemma_block_fits(4, net.host_bits());
    }
}

/// No node has the last address there is.
pub proof fn lemma_last_offset4(text: Seq<char>)
    ensures
        ipv4_net_of(text) matches Some(net) ==> net.wf() && (last_offset4(net) matches Some(last)
            ==> last < u32::MAX),
{
    if let Some(net) = ipv4_net_of(text) {
        lemma_block_fits(net.host_bits(), 32);
        lemma_pow2_128();
        if net.prefix_len <= 30 {
            lemma_block_fits(2, net.host_bits());
            lemma_small_blocks();
        }
    }
}

/// The sizes of small blocks.
proof fn lemma_small_blocks()
    ensures
        block(0) == 1,
        block(1) == 2,
        block(2) == 4,
        block(3) == 8,
        block(4) == 16,
{
    lemma_pow2_unfold(4);
    lemma_pow2_unfold(3);
    lemma_pow2_unfold(2);
    lemma_pow2_unfold(1);
    vstd::arithmetic::power2::lemma2_to64();
}

/// Every offset up to the last leads to an address of the network that is neither its first nor
/// its last.
pub proof fn law_offset4(net: Ipv4Net, offset: int)
    requires
        net.wf(),
        last_offset4(net) is Some,
        1 <= offset <= last_offset4(net)->0,
    ensures
        net.first() < net.first() + offset < net.last() <= u32::MAX,
{
    net.lemma_range();
    lemma_pow2_128();
    lemma_block_fits(net.host_bits(), 32);
    lemma_block_fits(2, net.host_bits());
    lemma_pow2_unfold(2);
    lemma_pow2_unfold(1);
}

/// Every offset up to the last leads to an address of the network.
pub proof fn law_offset6(net: Ipv6Net, offset: int)
    requires
        net.wf(),
        0 <= offset <= last_offset6(net),
    ensures
        net.has(net.first() + offset),
        net.first() + offset <= u128::MAX,
{
    net.lemma_range();
    lemma_pow2_128();
    lemma_block_fits(net.host_bits(), 128);
}

/// One of the four bytes of an IPv4 address, the first of them at place 0.
pub open spec fn octet(ip: u32, place: int) -> nat {
    if place == 0 {
        (ip / 0x100_0000) as nat
    } else if place == 1 {
        (ip / 0x1_0000 % 256) as nat
    } else if place == 2 {
        (ip / 0x100 % 256) as nat
    } else {
        (ip % 256) as nat
    }
}

/// An IPv4 address as its four bytes in decimal with dots between them.
pub open spec fn dotted(ip: u32) -> Seq<char> {
    decimal(octet(ip, 0)) + seq!['.'] + decimal(octet(ip, 1)) + seq!['.'] + decimal(octet(ip, 2))
        + seq!['.'] + decimal(octet(ip, 3))
}

/// An IPv4 address as its four bytes in decimal with dots between them.
pub fn ipv4_text(ip: u32) -> (r: String)
    ensures
        r@ == dotted(ip),
{
    let mut out: String = decimal_text((ip / 0x100_0000) as u64);
    out.push('.');
    out.append(decimal_text((ip / 0x1_0000 % 256) as u64).as_str());
    out.push('.');
    out.append(decimal_text((ip / 0x100 % 256) as u64).as_str());
    out.push('.');
    out.append(decimal_text((ip % 256) as u64).as_str());
    assert(out@ =~= dotted(ip));
    out
}

/// A number in decimal ends at the dot behind it.
proof fn lemma_decimal_part(m: nat, n: nat, x: Seq<char>, y: Seq<char>)
    requires
        decimal(m) + seq!['.'] + x == decimal(n) + seq!['.'] + y,
    ensures
        m == n,
        x == y,
{
    lemma_decimal_lacks(m, '.');
    lemma_decimal_lacks(n, '.');
    lemma_delimited(decimal(m), decimal(n), x, y, '.');
    lemma_decimal(m);
    lemma_decimal(n);
}

/// The four bytes determine the address.
proof fn lemma_octets(a: u32, b: u32)
    requires
        octet(a, 0) == octet(b, 0),
        octet(a, 1) == octet(b, 1),
        octet(a, 2) == octet(b, 2),
        octet(a, 3) == octet(b, 3),
    ensures
        a == b,
{
}

/// The text of an address from its byte at `place` on.
spec fn dotted_from(ip: u32, place: int) -> Seq<char>
    decreases 3 - place,
{
    if place >= 3 {
        decimal(octet(ip, 3))
    } else {
        decimal(octet(ip, place)) + seq!['.'] + dotted_from(ip, place + 1)
    }
}

proof fn lemma_dotted_from(ip: u32)
    ensures
        dotted(ip) == dotted_from(ip, 0),
{
    let dot = seq!['.'];
    let d0 = decimal(octet(ip, 0));
    let d1 = decimal(octet(ip, 1));
    let d2 = decimal(octet(ip, 2));
    let d3 = decimal(octet(ip, 3));
    assert(dotted_from(ip, 3) == d3);
    assert(dotted_from(ip, 2) == d2 + dot + d3);
    assert(dotted_from(ip, 1) == d1 + dot + (d2 + dot + d3));
    assert(dotted_from(ip, 0) == d0 + dot + (d1 + dot + (d2 + dot + d3)));
    assert(d0 + dot + (d1 + dot + (d2 + dot + d3)) =~= d0 + dot + d1 + dot + d2 + dot + d3);
}

/// No two IPv4 addresses are written alike.
pub proof fn law_dotted(a: u32, b: u32)
    ensures
        dotted(a) == dotted(b) ==> a == b,
{
    if dotted(a) == dotted(b) {
        lemma_dotted_from(a);
        lemma_dotted_from(b);
        lemma_decimal_part(octet(a, 0), octet(b, 0), dotted_from(a, 1), dotted_from(b, 1));
        lemma_decimal_part(octet(a, 1), octet(b, 1), dotted_from(a, 2), dotted_from(b, 2));
        lemma_decimal_part(octet(a, 2), octet(b, 2), dotted_from(a, 3), dotted_from(b, 3));
        lemma_decimal(octet(a, 3));
        lemma_decimal(octet(b, 3));
        lemma_octets(a, b);
    }
}

/// The IPv4 address that a text writes, if it writes one: its four bytes in decimal, without
/// leading zeros, with dots between them.
pub open spec fn parsed_ipv4(text: Seq<char>) -> Option<u32> {
    if exists|ip: u32| text == #[trigger] dotted(ip) {
        Some(choose|ip: u32| text == #[trigger] dotted(ip))
    } else {
        None
    }
}

/// What is written as an IPv4 address is read as that address.
pub proof fn law_dotted_is_read_back(ip: u32)
    ensures
        parsed_ipv4(dotted(ip)) == Some(ip),
{
    let found = choose|other: u32| dotted(ip) == #[trigger] dotted(other);
    law_dotted(ip, found);
}

/// `hickory_proto::rr::rdata::A` reads an IPv4 address from its text as std does: four decimal
/// numbers without leading zeros and with dots between them, and nothing else.
#[verifier::external_body]
pub(crate) fn parse_ipv4(text: &str) -> (r: Option<u32>)
    ensures
        r == parsed_ipv4(text@),
{
    text.parse::<A>().ok().map(|a| u32::from(a.0))
}

/// Whether a text holds two colons.
pub open spec fn two_colons(text: Seq<char>) -> bool {
    exists|i: int, j: int|
        0 <= i < j < text.len() && #[trigger] text[i] == ':' && #[trigger] text[j] == ':'
}

/// The IPv6 address that `AAAA` reads from a text, if it reads one.
pub uninterp spec fn aaaa_read(text: Seq<char>) -> Option<u128>;

/// `hickory_proto::rr::rdata::AAAA` reads an IPv6 address from its text as std does. The groups of
/// an IPv6 address stand between colons, so there are two of these at least.
#[verifier::external_body]
fn read_ipv6(text: &str) -> (r: Option<u128>)
    ensures
        r == aaaa_read(text@),
        r is Some ==> two_colons(text@),
{
    text.parse::<AAAA>().ok().map(|a| u128::from(a.0))
}

/// The IPv6 address that a text writes, if it writes one.
pub open spec fn parsed_ipv6(text: Seq<char>) -> Option<u128> {
    if two_colons(text) {
        aaaa_read(text)
    } else {
        None
    }
}

/// Reads an IPv6 address from its text.
pub(crate) fn parse_ipv6(text: &str) -> (r: Option<u128>)
    ensures
        r == parsed_ipv6(text@),
{
    read_ipv6(text)
}

/// An IPv6 address in the form of RFC 5952.
pub uninterp spec fn ipv6_text_of(ip: u128) -> Seq<char>;

/// `hickory_proto::rr::rdata::AAAA` displays an IPv6 address as std does: a text from which the
/// address can be read back.
#[verifier::external_body]
pub(crate) fn ipv6_text(ip: u128) -> (r: String)
    ensures
        r@ == ipv6_text_of(ip),
        parsed_ipv6(r@) == Some(ip),
{
    AAAA(ip.into()).to_string()
}

/// What is written as an IPv4 address holds digits and dots only.
pub proof fn lemma_dotted_lacks(ip: u32, c: char)
    requires
        !is_digit(c),
        c != '.',
    ensures
        !dotted(ip).contains(c),
{
    let text = dotted(ip);
    lemma_decimal_lacks(octet(ip, 0), c);
    lemma_decimal_lacks(octet(ip, 1), c);
    lemma_decimal_lacks(octet(ip, 2), c);
    lemma_decimal_lacks(octet(ip, 3), c);
    let d0 = decimal(octet(ip, 0));
    let d1 = decimal(octet(ip, 1));
    let d2 = decimal(octet(ip, 2));
    let d3 = decimal(octet(ip, 3));
    let head = d0 + seq!['.'] + d1;
    let most = head + seq!['.'] + d2;
    assert(text == most + seq!['.'] + d3);
    if text.contains(c) {
        let i = text.index_of(c);
        if i < d0.len() {
            assert(d0[i] == c);
        } else if i < head.len() {
            assert(head[i] == c);
            assert(i > d0.len());
            assert(d1[i - d0.len() - 1] == c);
        } else if i < most.len() {
            assert(most[i] == c);
            assert(i > head.len());
            assert(d2[i - head.len() - 1] == c);
        } else {
            assert(i > most.len());
            assert(d3[i - most.len() - 1] == c);
        }
    }
}

/// An address.
#[derive(Clone, Copy, Debug, PartialEq, Eq, Structural)]
pub enum IpAddress {
    V4(u32),
    V6(u128),
}

impl DeepView for IpAddress {
    type V = IpAddress;

    open spec fn deep_view(&self) -> IpAddress {
        *self
    }
}

/// The address that a text writes, if it writes one.
pub open spec fn parsed_ip(text: Seq<char>) -> Option<IpAddress> {
    match parsed_ipv4(text) {
        Some(ip) => Some(IpAddress::V4(ip)),
        None => match parsed_ipv6(text) {
            Some(ip) => Some(IpAddress::V6(ip)),
            None => None,
        },
    }
}

/// The text of an address.
pub open spec fn ip_text_of(ip: IpAddress) -> Seq<char> {
    match ip {
        IpAddress::V4(ip) => dotted(ip),
        IpAddress::V6(ip) => ipv6_text_of(ip),
    }
}

/// An IPv4 address reads back from its text, and so does an IPv6 address wherever that can be read
/// as an IPv6 address.
pub proof fn law_ip_text_is_read_back(v4: u32, text: Seq<char>, v6: u128)
    requires
        parsed_ipv6(text) == Some(v6),
    ensures
        parsed_ip(dotted(v4)) == Some(IpAddress::V4(v4)),
        parsed_ip(text) == Some(IpAddress::V6(v6)),
{
    law_dotted_is_read_back(v4);
    if exists|ip: u32| text == #[trigger] dotted(ip) {
        let ip = choose|ip: u32| text == #[trigger] dotted(ip);
        lemma_dotted_lacks(ip, ':');
        let (i, j) = choose|i: int, j: int|
            0 <= i < j < text.len() && #[trigger] text[i] == ':' && #[trigger] text[j] == ':';
        assert(text.contains(text[i]));
    }
}

/// Reads an address from its text.
pub fn parse_ip(text: &str) -> (r: Option<IpAddress>)
    ensures
        r == parsed_ip(text@),
{
    match parse_ipv4(text) {
        Some(ip) => Some(IpAddress::V4(ip)),
        None => match parse_ipv6(text) {
            Some(ip) => Some(IpAddress::V6(ip)),
            None => None,
        },
    }
}

/// The text of an address.
pub fn ip_text(ip: &IpAddress) -> (r: String)
    ensures
        r@ == ip_text_of(*ip),
{
    match ip {
        IpAddress::V4(ip) => ipv4_text(*ip),
        IpAddress::V6(ip) => ipv6_text(*ip),
    }
}

/// An address with a port; `scope` is 0 but for an IPv6 address with a scope.
#[derive(Clone, Copy, Debug, PartialEq, Eq, Structural)]
pub struct SocketAddress {
    pub ip: IpAddress,
    pub port: u16,
    pub scope: u32,
}

impl DeepView for SocketAddress {
    type V = SocketAddress;

    open spec fn deep_view(&self) -> SocketAddress {
        *self
    }
}

/// An address and a port: `1.2.3.4:5`, `[::1]:5` or `[::1%6]:5`.
pub open spec fn socket_text_of(addr: SocketAddress) -> Seq<char> {
    match addr.ip {
        IpAddress::V4(ip) => dotted(ip) + seq![':'] + decimal(addr.port as nat),
        IpAddress::V6(ip) => seq!['['] + ipv6_text_of(ip) + (if addr.scope == 0 {
            Seq::empty()
        } else {
            seq!['%'] + decimal(addr.scope as nat)
        }) + seq![']', ':'] + decimal(addr.port as nat),
    }
}

/// The text of an address and a port.
pub fn socket_text(addr: &SocketAddress) -> (r: String)
    ensures
        r@ == socket_text_of(*addr),
{
    let mut out: String = String::new();
    match addr.ip {
        IpAddress::V4(ip) => {
            out.append(ipv4_text(ip).as_str());
        },
        IpAddress::V6(ip) => {
            out.push('[');
            out.append(ipv6_text(ip).as_str());
            if addr.scope != 0 {
                out.push('%');
                out.append(decimal_text(addr.scope as u64).as_str());
            }
            out.push(']');
        },
    }
    out.push(':');
    out.append(decimal_text(addr.port as u64).as_str());
    assert(out@ =~= socket_text_of(*addr));
    out
}

/// The address and port that a text writes, if it writes them: an IPv4 address, a colon and a
/// port, or an IPv6 address in brackets, where it may be followed by `%` and a scope, a colon and
/// a port.
pub open spec fn parsed_socket(text: Seq<char>) -> Option<SocketAddress> {
    if text.len() > 0 && text[0] == '[' {
        match split_once_at(text.skip(1), ']') {
            Some((inside, rest)) => {
                let (address, scope) = match split_once_at(inside, '%') {
                    Some((address, scope)) => (address, number_value(scope, u32::MAX as nat)),
                    None => (inside, Some(0nat)),
                };
                if rest.len() > 0 && rest[0] == ':' {
                    match (parsed_ipv6(address), scope, number_value(rest.skip(1), 65535)) {
                        (Some(ip), Some(scope), Some(port)) => Some(
                            SocketAddress {
                                ip: IpAddress::V6(ip),
                                port: port as u16,
                                scope: scope as u32,
                            },
                        ),
                        _ => None,
                    }
                } else {
                    None
                }
            },
            None => None,
        }
    } else {
        match split_once_at(text, ':') {
            Some((address, port)) => match (parsed_ipv4(address), number_value(port, 65535)) {
                (Some(ip), Some(port)) => Some(
                    SocketAddress { ip: IpAddress::V4(ip), port: port as u16, scope: 0 },
                ),
                _ => None,
            },
            None => None,
        }
    }
}

/// Reads an address and a port from their text.
pub fn parse_socket(text: &str) -> (r: Option<SocketAddress>)
    ensures
        r == parsed_socket(text@),
{
    let chars: Vec<char> = chars_of(text);
    if chars.len() > 0 && chars[0] == '[' {
        let (inside, rest): (String, String) = match split_once(
            skip_chars(text, 1).as_str(),
            ']',
        ) {
            Some(parts) => parts,
            None => {
                return None;
            },
        };
        let (address, scope): (String, Option<u32>) = match split_once(inside.as_str(), '%') {
            Some((address, scope)) => (address, parse_number(scope.as_str(), u32::MAX)),
            None => (inside, Some(0)),
        };
        let tail: Vec<char> = chars_of(rest.as_str());
        if tail.len() == 0 || tail[0] != ':' {
            return None;
        }
        match (
            parse_ipv6(address.as_str()),
            scope,
            parse_number(skip_chars(rest.as_str(), 1).as_str(), 65535),
        ) {
            (Some(ip), Some(scope), Some(port)) => Some(
                SocketAddress { ip: IpAddress::V6(ip), port: port as u16, scope },
            ),
            _ => None,
        }
    } else {
        match split_once(text, ':') {
            Some((address, port)) => match (
                parse_ipv4(address.as_str()),
                parse_number(port.as_str(), 65535),
            ) {
                (Some(ip), Some(port)) => Some(
                    SocketAddress { ip: IpAddress::V4(ip), port: port as u16, scope: 0 },
                ),
                _ => None,
            },
            None => None,
        }
    }
}

/// An IPv4 network: an address, a slash and the number of shared bits.
pub open spec fn cidr4(ip: u32, prefix_len: u8) -> Seq<char> {
    dotted(ip) + seq!['/'] + decimal(prefix_len as nat)
}

/// A unique local IPv6 network of 48 shared bits: `fd`, then five bytes, as in
/// `fd01:2345:6789::/48`.
pub open spec fn ula_text(b: Seq<u8>) -> Seq<char> {
    seq!['f', 'd'] + hex_byte(b[0]) + seq![':'] + hex_byte(b[1]) + hex_byte(b[2]) + seq![':']
        + hex_byte(b[3]) + hex_byte(b[4]) + seq![':', ':', '/', '4', '8']
}

/// The first address of that network.
pub open spec fn ula_addr(b: Seq<u8>) -> u128 {
    ((((((0xfd * 256 + b[0]) * 256 + b[1]) * 256 + b[2]) * 256 + b[3]) * 256 + b[4])
        * 0x1_0000_0000_0000_0000_0000) as u128
}

/// The number up to `max` that a text writes in decimal, if it does so in at most this many digits;
/// leading zeros count among them.
pub open spec fn short_number(s: Seq<char>, digits: nat, max: nat) -> Option<nat> {
    if s.len() <= digits {
        number_value(s, max)
    } else {
        None
    }
}

/// The IPv4 address of four bytes.
pub open spec fn address4(a: nat, b: nat, c: nat, d: nat) -> u32 {
    (((a * 256 + b) * 256 + c) * 256 + d) as u32
}

/// The address and the number of shared bits that a text writes, if it writes an IPv4 network: four
/// numbers below 256 of one to three digits with dots between them, a slash, and a number up to 32
/// of one or two digits. Any of them may have leading zeros.
pub open spec fn parsed_ipv4_net(text: Seq<char>) -> Option<(u32, u8)> {
    match split_once_at(text, '/') {
        Some((address, bits)) => {
            let parts = split_at(address, '.');
            if parts.len() == 4 && short_number(bits, 2, 32) is Some && (forall|i: int|
                0 <= i < 4 ==> short_number(#[trigger] parts[i], 3, 255) is Some) {
                Some(
                    (
                        address4(
                            digits_value(parts[0]),
                            digits_value(parts[1]),
                            digits_value(parts[2]),
                            digits_value(parts[3]),
                        ),
                        digits_value(bits) as u8,
                    ),
                )
            } else {
                None
            }
        },
        None => None,
    }
}

/// `ipnet::Ipv4Net` reads a network from its text: a dotted address, a slash and the number of
/// shared bits, with leading zeros where the digits allow for them, and nothing else.
#[verifier::external_body]
pub(crate) fn read_ipv4_net(text: &str) -> (r: Option<(u32, u8)>)
    ensures
        r == parsed_ipv4_net(text@),
{
    text.parse::<ipnet::Ipv4Net>().ok().map(|net| (u32::from(net.addr()), net.prefix_len()))
}

/// What stands before the first `c` and what stands behind it.
proof fn lemma_first_piece(a: Seq<char>, x: Seq<char>, c: char)
    requires
        !a.contains(c),
    ensures
        split_once_at(a + seq![c] + x, c) == Some((a, x)),
        split_at(a + seq![c] + x, c) == seq![a] + split_at(x, c),
{
    let s = a + seq![c] + x;
    assert(s[a.len() as int] == c);
    lemma_first_index(s, c);
    let at = first_index(s, c);
    if at < a.len() {
        assert(a[at] == s[at]);
    }
    assert(s.take(at) =~= a);
    assert(s.skip(at + 1) =~= x);
}

/// How many digits a small number has.
proof fn lemma_decimal_short(n: nat)
    requires
        n < 1000,
    ensures
        decimal(n).len() <= 3,
        n < 100 ==> decimal(n).len() <= 2,
{
    reveal_with_fuel(decimal, 3);
}

/// A byte in decimal is read back.
proof fn lemma_octet_is_read_back(ip: u32, place: int)
    ensures
        short_number(decimal(octet(ip, place)), 3, 255) == Some(octet(ip, place)),
        !decimal(octet(ip, place)).contains('.'),
{
    lemma_decimal(octet(ip, place));
    lemma_decimal_short(octet(ip, place));
    lemma_decimal_lacks(octet(ip, place), '.');
}

/// The parts of a dotted address are its bytes in decimal.
proof fn lemma_dotted_parts(ip: u32)
    ensures
        split_at(dotted(ip), '.') == seq![
            decimal(octet(ip, 0)),
            decimal(octet(ip, 1)),
            decimal(octet(ip, 2)),
            decimal(octet(ip, 3)),
        ],
{
    let dot = seq!['.'];
    let d0 = decimal(octet(ip, 0));
    let d1 = decimal(octet(ip, 1));
    let d2 = decimal(octet(ip, 2));
    let d3 = decimal(octet(ip, 3));
    assert(!d0.contains('.') && !d1.contains('.') && !d2.contains('.') && !d3.contains('.')) by {
        lemma_octet_is_read_back(ip, 0);
        lemma_octet_is_read_back(ip, 1);
        lemma_octet_is_read_back(ip, 2);
        lemma_octet_is_read_back(ip, 3);
    }
    lemma_four_parts(d0, d1, d2, d3);
    assert(dotted(ip) == d0 + dot + d1 + dot + d2 + dot + d3);
}

/// Four parts without dots are told by the dots between them.
proof fn lemma_four_parts(d0: Seq<char>, d1: Seq<char>, d2: Seq<char>, d3: Seq<char>)
    requires
        !d0.contains('.'),
        !d1.contains('.'),
        !d2.contains('.'),
        !d3.contains('.'),
    ensures
        split_at(d0 + seq!['.'] + d1 + seq!['.'] + d2 + seq!['.'] + d3, '.') == seq![d0, d1, d2, d3],
{
    let dot = seq!['.'];
    assert(split_at(d3, '.') == seq![d3]) by {
        lemma_first_index(d3, '.');
    }
    lemma_first_piece(d2, d3, '.');
    lemma_first_piece(d1, d2 + dot + d3, '.');
    lemma_first_piece(d0, d1 + dot + (d2 + dot + d3), '.');
    assert(d0 + dot + (d1 + dot + (d2 + dot + d3)) =~= d0 + dot + d1 + dot + d2 + dot + d3);
    assert(seq![d0] + (seq![d1] + (seq![d2] + seq![d3])) =~= seq![d0, d1, d2, d3]);
}

/// What is written as an IPv4 network is read as that network.
pub proof fn law_cidr4_is_read_back(ip: u32, n: u8)
    requires
        n <= 32,
    ensures
        parsed_ipv4_net(cidr4(ip, n)) == Some((ip, n)),
{
    lemma_dotted_parts(ip);
    lemma_octet_is_read_back(ip, 0);
    lemma_octet_is_read_back(ip, 1);
    lemma_octet_is_read_back(ip, 2);
    lemma_octet_is_read_back(ip, 3);
    lemma_decimal(n as nat);
    lemma_decimal_short(n as nat);
    lemma_dotted_lacks(ip, '/');
    lemma_first_piece(dotted(ip), decimal(n as nat), '/');
    assert(address4(octet(ip, 0), octet(ip, 1), octet(ip, 2), octet(ip, 3)) == ip);
}

/// The address and the number of shared bits that a text writes, if it writes an IPv6 network.
pub uninterp spec fn parsed_ipv6_net(text: Seq<char>) -> Option<(u128, u8)>;

/// `ipnet::Ipv6Net` reads a network from its text. At most 128 bits are shared. The text of a
/// unique local network of 48 shared bits is read back.
#[verifier::external_body]
pub(crate) fn read_ipv6_net(text: &str) -> (r: Option<(u128, u8)>)
    ensures
        r == parsed_ipv6_net(text@),
        r matches Some(net) ==> net.1 <= 128,
        forall|b: Seq<u8>|
            b.len() == 5 && text@ == #[trigger] ula_text(b) ==> r == Some((ula_addr(b), 48u8)),
{
    text.parse::<ipnet::Ipv6Net>().ok().map(|net| (u128::from(net.addr()), net.prefix_len()))
}

/// The IPv4 network that a text writes, if it writes one.
pub open spec fn ipv4_net_of(text: Seq<char>) -> Option<Ipv4Net> {
    match parsed_ipv4_net(text) {
        Some((addr, prefix_len)) => Some(Ipv4Net { addr, prefix_len }),
        None => None,
    }
}

/// The IPv6 network that a text writes, if it writes one.
pub open spec fn ipv6_net_of(text: Seq<char>) -> Option<Ipv6Net> {
    match parsed_ipv6_net(text) {
        Some((addr, prefix_len)) => if prefix_len <= 128 {
            Some(Ipv6Net { addr, prefix_len })
        } else {
            None
        },
        None => None,
    }
}

/// Reads an IPv4 network from its text.
pub fn parse_ipv4_net(text: &str) -> (r: Option<Ipv4Net>)
    ensures
        r == ipv4_net_of(text@),
        r matches Some(net) ==> net.wf(),
        forall|ip: u32, n: u8|
            n <= 32 && text@ == #[trigger] cidr4(ip, n) ==> r == Some(
                Ipv4Net { addr: ip, prefix_len: n },
            ),
{
    proof {
        assert forall|ip: u32, n: u8|
            n <= 32 && text@ == #[trigger] cidr4(ip, n) implies parsed_ipv4_net(text@) == Some(
            (ip, n),
        ) by {
            law_cidr4_is_read_back(ip, n);
        }
    }
    match read_ipv4_net(text) {
        Some((addr, prefix_len)) => Some(Ipv4Net { addr, prefix_len }),
        None => None,
    }
}

/// Reads an IPv6 network from its text.
pub fn parse_ipv6_net(text: &str) -> (r: Option<Ipv6Net>)
    ensures
        r == ipv6_net_of(text@),
        r matches Some(net) ==> net.wf(),
        forall|b: Seq<u8>|
            b.len() == 5 && text@ == #[trigger] ula_text(b) ==> r == Some(
                Ipv6Net { addr: ula_addr(b), prefix_len: 48 },
            ),
{
    match read_ipv6_net(text) {
        Some((addr, prefix_len)) => Some(Ipv6Net { addr, prefix_len }),
        None => None,
    }
}

/// An address and a port are read back from their text. For an IPv6 address that is so wherever the
/// address is read back from its own text, which holds neither brackets nor a percent sign.
pub proof fn law_socket_text_is_read_back(addr: SocketAddress)
    ensures
        addr.ip matches IpAddress::V4(ip) ==> (addr.scope == 0 ==> parsed_socket(
            socket_text_of(addr),
        ) == Some(addr)),
        addr.ip matches IpAddress::V6(ip) ==> (parsed_ipv6(ipv6_text_of(ip)) == Some(ip)
            && !ipv6_text_of(ip).contains(']') && !ipv6_text_of(ip).contains('%')
            ==> parsed_socket(socket_text_of(addr)) == Some(addr)),
{
    let port = decimal(addr.port as nat);
    law_decimal(addr.port as nat, 65535);
    let text = socket_text_of(addr);
    match addr.ip {
        IpAddress::V4(ip) => {
            lemma_dotted_lacks(ip, ':');
            lemma_dotted_lacks(ip, '[');
            law_dotted_is_read_back(ip);
            lemma_first_piece(dotted(ip), port, ':');
            lemma_decimal(octet(ip, 0));
            assert(text[0] == decimal(octet(ip, 0))[0]);
            assert(is_digit(text[0]));
        },
        IpAddress::V6(ip) => {
            let address = ipv6_text_of(ip);
            if parsed_ipv6(address) == Some(ip) && !address.contains(']') && !address.contains('%') {
                let scope = decimal(addr.scope as nat);
                law_decimal(addr.scope as nat, u32::MAX as nat);
                lemma_decimal_lacks(addr.scope as nat, ']');
                let inside = address + (if addr.scope == 0 {
                    Seq::empty()
                } else {
                    seq!['%'] + scope
                });
                let rest = seq![':'] + port;
                assert(!inside.contains(']')) by {
                    if inside.contains(']') {
                        let i = inside.index_of(']');
                        if i < address.len() {
                            assert(address[i] == ']');
                        } else if i > address.len() {
                            assert(scope[i - address.len() - 1] == ']');
                        }
                    }
                }
                assert(text.skip(1) =~= inside + seq![']'] + rest);
                lemma_first_piece(inside, rest, ']');
                assert(rest.skip(1) =~= port);
                if addr.scope == 0 {
                    assert(inside =~= address);
                } else {
                    assert(inside =~= address + seq!['%'] + scope);
                    lemma_first_piece(address, scope, '%');
                }
            }
        },
    }
}

/// A network starts at an address that its number of shared bits divides off, holds the address
/// that it is written with, and has as many addresses as the other bits give.
pub proof fn law_network4(net: Ipv4Net)
    requires
        net.wf(),
    ensures
        net.has(net.addr as int),
        net.last() - net.first() + 1 == pow2((32 - net.prefix_len) as nat),
        net.first() % (pow2((32 - net.prefix_len) as nat) as int) == 0,
{
    lemma_block_holds(net.addr as int, net.host_bits());
}

/// A network starts at an address that its number of shared bits divides off, holds the address
/// that it is written with, and has as many addresses as the other bits give.
pub proof fn law_network6(net: Ipv6Net)
    requires
        net.wf(),
    ensures
        net.has(net.addr as int),
        net.last() - net.first() + 1 == pow2((128 - net.prefix_len) as nat),
        net.first() % (pow2((128 - net.prefix_len) as nat) as int) == 0,
{
    lemma_block_holds(net.addr as int, net.host_bits());
}

/// A block holds the address that it is told by.
proof fn lemma_block_holds(addr: int, bits: int)
    requires
        0 <= bits,
        0 <= addr,
    ensures
        block_start(addr, bits) <= addr < block_start(addr, bits) + block(bits),
        block_start(addr, bits) % block(bits) == 0,
{
    lemma_pow2_pos(bits as nat);
    let b = block(bits);
    vstd::arithmetic::div_mod::lemma_fundamental_div_mod(addr, b);
    vstd::arithmetic::div_mod::lemma_mod_bound(addr, b);
    assert(block_start(addr, bits) == b * (addr / b));
    vstd::arithmetic::div_mod::lemma_mod_multiples_basic(addr / b, b);
    assert(b * (addr / b) == (addr / b) * b) by (nonlinear_arith);
}

/// The bytes of an address are its parts in the order in which they are written.
pub proof fn law_octets(ip: u32)
    ensures
        octet(ip, 0) < 256,
        octet(ip, 1) < 256,
        octet(ip, 2) < 256,
        octet(ip, 3) < 256,
        ((octet(ip, 0) * 256 + octet(ip, 1)) * 256 + octet(ip, 2)) * 256 + octet(ip, 3) == ip,
{
}

/// The text of a unique local network starts with `fd` and ends in `::/48`.
pub proof fn law_ula_text(b: Seq<u8>)
    requires
        b.len() == 5,
    ensures
        ula_text(b).len() == 19,
        ula_text(b).take(2) == seq!['f', 'd'],
        ula_text(b).skip(14) == seq![':', ':', '/', '4', '8'],
        ula_text(b).subrange(2, 4) == hex_byte(b[0]),
        ula_text(b).subrange(5, 7) == hex_byte(b[1]),
        ula_text(b).subrange(7, 9) == hex_byte(b[2]),
        ula_text(b).subrange(10, 12) == hex_byte(b[3]),
        ula_text(b).subrange(12, 14) == hex_byte(b[4]),
        ula_text(b)[4] == ':' && ula_text(b)[9] == ':',
{
    assert(ula_text(b).take(2) =~= seq!['f', 'd']);
    assert(ula_text(b).skip(14) =~= seq![':', ':', '/', '4', '8']);
    assert(ula_text(b).subrange(2, 4) =~= hex_byte(b[0]));
    assert(ula_text(b).subrange(5, 7) =~= hex_byte(b[1]));
    assert(ula_text(b).subrange(7, 9) =~= hex_byte(b[2]));
    assert(ula_text(b).subrange(10, 12) =~= hex_byte(b[3]));
    assert(ula_text(b).subrange(12, 14) =~= hex_byte(b[4]));
}

/// What is read as an IPv4 address is written so.
pub proof fn law_read_ipv4_is_dotted(text: Seq<char>)
    ensures
        parsed_ipv4(text) matches Some(ip) ==> text == dotted(ip),
{
}

} // verus!
