//! IPv6 network prefixes and membership of addresses in them.
use vstd::prelude::*;
use vstd::arithmetic::power2::{pow2, lemma2_to64, lemma_pow2_adds, lemma_pow2_pos};
use vstd::arithmetic::div_mod::{
    lemma_basic_div, lemma_div_denominator, lemma_div_pos_is_pos, lemma_fundamental_div_mod,
    lemma_hoist_over_denominator, lemma_mod_bound,
};
use vstd::arithmetic::mul::lemma_mul_is_associative;
use vstd::bits::{lemma_u128_shr_is_div, lemma_u8_shr_is_div};

verus! {

/// Number of bits in an IPv6 address.
pub const ADDRESS_BITS: usize = 128;

/// The number formed by the leading `len` bits of the 128-bit address `a`
/// (zero when `len` is zero).
pub open spec fn leading_bits(a: u128, len: nat) -> int
    recommends
        len <= 128,
{
    a as int / pow2((128 - len) as nat) as int
}

/// `a` lies in the network whose address is `net` and whose length is `len`:
/// the leading `len` bits of both agree.
pub open spec fn in_prefix(net: u128, len: nat, a: u128) -> bool {
    leading_bits(net, len) == leading_bits(a, len)
}

/// 2^128 lies above every `u128`.
pub proof fn lemma_pow2_128_bounds_u128(x: u128)
    ensures
        pow2(128) == u128::MAX as nat + 1,
        (x as int) < pow2(128),
        x as int / pow2(128) as int == 0,
{
    lemma2_to64();
    lemma_pow2_adds(64, 64);
    assert(pow2(128) == 0x1_0000_0000_0000_0000nat * 0x1_0000_0000_0000_0000nat);
    assert((x as int) < pow2(128));
    lemma_basic_div(x as int, pow2(128) as int);
}

/// Bit `i` of `a`, counting from the most significant bit (bit 0) down to the
/// least significant (bit 127).
pub open spec fn bit_at(a: u128, i: nat) -> bool
    recommends
        i < 128,
{
    (a as int / pow2((127 - i) as nat) as int) % 2 == 1
}

/// The leading `len + 1` bits are the leading `len` bits followed by bit `len`.
proof fn lemma_leading_bits_step(a: u128, len: nat)
    requires
        len < 128,
    ensures
        leading_bits(a, len + 1) / 2 == leading_bits(a, len),
        leading_bits(a, len + 1) % 2 == (if bit_at(a, len) { 1int } else { 0int }),
{
    let e = (127 - len) as nat;
    lemma_pow2_pos(e);
    lemma_pow2_adds(e, 1);
    lemma2_to64();
    assert((128 - len) as nat == e + 1);
    lemma_div_denominator(a as int, pow2(e) as int, 2);
}

/// A prefix match compares bit by bit: `a` lies in `net/len` exactly when bits
/// 0 to `len - 1` of `a` and of `net` agree, for every length from 0 to 128.
pub proof fn lemma_prefix_match_is_bitwise(net: u128, len: nat, a: u128)
    requires
        len <= 128,
    ensures
        in_prefix(net, len, a) <==> forall|i: nat| i < len ==> bit_at(net, i) == bit_at(a, i),
    decreases len,
{
    if len == 0 {
        lemma_pow2_128_bounds_u128(net);
        lemma_pow2_128_bounds_u128(a);
    } else {
        let k = (len - 1) as nat;
        lemma_prefix_match_is_bitwise(net, k, a);
        lemma_leading_bits_step(net, k);
        lemma_leading_bits_step(a, k);
        let x = leading_bits(net, len);
        let y = leading_bits(a, len);
        lemma_fundamental_div_mod(x, 2);
        lemma_fundamental_div_mod(y, 2);
        if in_prefix(net, len, a) {
            assert forall|i: nat| i < len implies bit_at(net, i) == bit_at(a, i) by {
                if i < k {
                    assert(bit_at(net, i) == bit_at(a, i));
                }
            }
        }
        if forall|i: nat| i < len ==> bit_at(net, i) == bit_at(a, i) {
            assert(bit_at(net, k) == bit_at(a, k));
            assert forall|i: nat| i < k implies bit_at(net, i) == bit_at(a, i) by {
                assert(i < len);
            }
            assert(x / 2 == y / 2);
            assert(x % 2 == y % 2);
        }
    }
}

/// Octet `k` of `a` in network order (octet 0 holds the most significant bits).
pub open spec fn octet_at(a: u128, k: nat) -> u8
    recommends
        k < 16,
{
    ((a as int / pow2((120 - 8 * k) as nat) as int) % 256) as u8
}

/// Where a prefix length is not a multiple of 8 and the whole octets before it
/// agree, the match is decided by the partial octet alone: the leading
/// `length % 8` bits of that octet must agree, that is, their exclusive or
/// shifted right by `8 - length % 8` must be zero. The trailing bits of the
/// prefix are masked, never dropped.
pub proof fn lemma_partial_octet_masked(net: u128, len: nat, a: u128)
    requires
        len < 128,
        len % 8 != 0,
        in_prefix(net, 8 * (len / 8), a),
    ensures
        in_prefix(net, len, a) <==> ((octet_at(net, len / 8) ^ octet_at(a, len / 8)) >> ((8 - len % 8) as u8)) == 0,
{
    let k = len / 8;
    let r = len % 8;
    let e = (120 - 8 * k) as nat;
    let s = (8 - r) as nat;
    lemma_pow2_pos(e);
    lemma_pow2_pos(s);
    lemma_pow2_pos(r);
    lemma2_to64();
    lemma_pow2_adds(e, 8);
    lemma_pow2_adds(e, s);
    lemma_pow2_adds(r, s);
    assert((128 - 8 * k) as nat == e + 8);
    assert((128 - len) as nat == e + s);
    let yn = net as int / pow2(e) as int;
    let ya = a as int / pow2(e) as int;
    lemma_div_denominator(net as int, pow2(e) as int, 256);
    lemma_div_denominator(a as int, pow2(e) as int, 256);
    lemma_div_denominator(net as int, pow2(e) as int, pow2(s) as int);
    lemma_div_denominator(a as int, pow2(e) as int, pow2(s) as int);
    assert(leading_bits(net, 8 * k) == yn / 256);
    assert(leading_bits(a, 8 * k) == ya / 256);
    assert(leading_bits(net, len) == yn / pow2(s) as int);
    assert(leading_bits(a, len) == ya / pow2(s) as int);
    lemma_fundamental_div_mod(yn, 256);
    lemma_fundamental_div_mod(ya, 256);
    let high = yn / 256;
    assert(high == ya / 256);
    assert(yn >= 0 && ya >= 0) by {
        lemma_div_pos_is_pos(net as int, pow2(e) as int);
        lemma_div_pos_is_pos(a as int, pow2(e) as int);
    }
    lemma_mod_bound(yn, 256);
    lemma_mod_bound(ya, 256);
    let on = yn % 256;
    let oa = ya % 256;
    assert(octet_at(net, k) as int == on);
    assert(octet_at(a, k) as int == oa);
    assert(pow2(8) == pow2(r) * pow2(s));
    lemma_mul_is_associative(high, pow2(r) as int, pow2(s) as int);
    lemma_hoist_over_denominator(on, high * pow2(r) as int, pow2(s) as nat);
    lemma_hoist_over_denominator(oa, high * pow2(r) as int, pow2(s) as nat);
    assert(yn == on + (high * pow2(r) as int) * pow2(s) as int);
    assert(ya == oa + (high * pow2(r) as int) * pow2(s) as int);
    assert(leading_bits(net, len) == on / pow2(s) as int + high * pow2(r) as int);
    assert(leading_bits(a, len) == oa / pow2(s) as int + high * pow2(r) as int);
    let x = octet_at(net, k);
    let z = octet_at(a, k);
    let sh = s as u8;
    lemma_u8_shr_is_div(x, sh);
    lemma_u8_shr_is_div(z, sh);
    assert(((x ^ z) >> sh == 0) <==> (x >> sh == z >> sh)) by (bit_vector);
}

/// An IPv6 network prefix: an address and a length in bits, at most 128.
pub struct Ipv6Prefix {
    addr: u128,
    length: usize,
}

impl Ipv6Prefix {
    #[verifier::type_invariant]
    spec fn length_in_range(self) -> bool {
        self.length <= 128
    }

    /// The network address.
    pub closed spec fn spec_addr(self) -> u128 {
        self.addr
    }

    /// The prefix length in bits.
    pub closed spec fn spec_length(self) -> nat {
        self.length as nat
    }

    /// Builds the prefix `addr/length`; `None` when `length` exceeds 128.
    pub fn new(addr: u128, length: usize) -> (r: Option<Ipv6Prefix>)
        ensures
            length <= 128 <==> r is Some,
            r matches Some(p) ==> p.spec_addr() == addr && p.spec_length() == length,
    {
        if length <= ADDRESS_BITS {
            Some(Ipv6Prefix { addr, length })
        } else {
            None
        }
    }

    /// The network address.
    pub fn addr(&self) -> (r: u128)
        ensures
            r == self.spec_addr(),
    {
        self.addr
    }

    /// The prefix length in bits.
    pub fn length(&self) -> (r: usize)
        ensures
            r == self.spec_length(),
            r <= 128,
    {
        proof {
            use_type_invariant(self);
        }
        self.length
    }

    /// Checks whether `addr` lies in this network, comparing bit by bit the
    /// leading `length` bits (also where `length` is not a multiple of 8).
    /// The answer is a function of the prefix and `addr` alone; the prefix is
    /// only read.
    pub fn matches(&self, addr: u128) -> (r: bool)
        ensures
            r == in_prefix(self.spec_addr(), self.spec_length(), addr),
    {
        proof {
            use_type_invariant(self);
        }
        if self.length == 0 {
            proof {
                lemma_pow2_128_bounds_u128(self.addr);
                lemma_pow2_128_bounds_u128(addr);
            }
            true
        } else {
            let shift: u128 = (ADDRESS_BITS - self.length) as u128;
            proof {
                lemma_u128_shr_is_div(self.addr, shift);
                lemma_u128_shr_is_div(addr, shift);
            }
            (self.addr >> shift) == (addr >> shift)
        }
    }
}

/// Matching depends on the prefix and the address alone: two prefixes with
/// the same address and length give the same answer for every address, call
/// after call.
pub proof fn lemma_matching_depends_on_values_only(p: Ipv6Prefix, q: Ipv6Prefix, a: u128)
    requires
        p.spec_addr() == q.spec_addr(),
        p.spec_length() == q.spec_length(),
    ensures
        in_prefix(p.spec_addr(), p.spec_length(), a) == in_prefix(q.spec_addr(), q.spec_length(), a),
{
}

} // verus!
