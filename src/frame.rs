//! Decoding of captured Ethernet II frames far enough to find the source
//! address of an IPv6 packet.
use vstd::prelude::*;
use vstd::arithmetic::power2::{pow2, lemma2_to64, lemma_pow2_adds};
use vstd::slice::slice_subrange;

verus! {

/// Length of an Ethernet II header: two MAC addresses and the EtherType.
pub const ETHERNET_HEADER_LEN: usize = 14;

/// EtherType of an IPv6 payload.
pub const IPV6_ETHER_TYPE: u16 = 0x86DD;

/// The 16 octets of an IPv6 address, in network order.
pub type Octets = [u8; 16];

/// Why a captured frame could not be decoded.
#[derive(Clone, Copy, Debug, PartialEq, Eq, Structural)]
pub enum ParseError {
    /// The frame ends before a header that it announces.
    Truncated,
    /// The IPv6 header does not carry version 6.
    Malformed,
}

/// The big-endian number that the bytes `s` encode.
pub open spec fn be_value(s: Seq<u8>) -> nat
    decreases s.len(),
{
    if s.len() == 0 {
        0
    } else {
        be_value(s.drop_last()) * 256 + s.last() as nat
    }
}

/// The EtherType of a frame of at least 14 bytes: bytes 12 and 13, big-endian.
pub open spec fn ether_type_of(frame: Seq<u8>) -> int {
    frame[12] as int * 256 + frame[13] as int
}

/// The version field of an IPv6 header: the high nibble of its first byte.
pub open spec fn ipv6_version_of(header: Seq<u8>) -> int {
    header[0] as int / 16
}

/// The source address of an IPv6 header: bytes 8 to 23, big-endian.
pub open spec fn ipv6_source_of(header: Seq<u8>) -> nat {
    be_value(header.subrange(8, 24))
}

/// What decoding a captured frame yields: `Ok(None)` for a frame that does not
/// carry IPv6, `Ok(Some(a))` for an IPv6 packet from `a`.
pub open spec fn frame_source(frame: Seq<u8>) -> Result<Option<u128>, ParseError> {
    if frame.len() < 14 {
        Err(ParseError::Truncated)
    } else if ether_type_of(frame) != 0x86DD {
        Ok(None)
    } else if frame.len() < 54 {
        Err(ParseError::Truncated)
    } else if ipv6_version_of(frame.subrange(14, 54)) != 6 {
        Err(ParseError::Malformed)
    } else {
        Ok(Some(ipv6_source_of(frame.subrange(14, 54)) as u128))
    }
}

/// `n` big-endian bytes encode a number below 2^(8n).
pub proof fn lemma_be_value_bound(s: Seq<u8>)
    ensures
        be_value(s) < pow2(8 * s.len()),
    decreases s.len(),
{
    lemma2_to64();
    if s.len() > 0 {
        let n = s.len();
        lemma_be_value_bound(s.drop_last());
        lemma_pow2_adds((8 * (n - 1)) as nat, 8);
        assert(8 * (n - 1) + 8 == 8 * n) by (nonlinear_arith);
        assert(be_value(s) < pow2(8 * n)) by (nonlinear_arith)
            requires
                be_value(s) == be_value(s.drop_last()) * 256 + s.last() as nat,
                be_value(s.drop_last()) < pow2((8 * (n - 1)) as nat),
                pow2(8 * n) == pow2((8 * (n - 1)) as nat) * 256,
                s.last() < 256,
        ;
    }
}

/// Reads an IPv6 address from its 16 octets in network order.
pub fn address_from_octets(octets: Octets) -> (r: u128)
    ensures
        r as nat == be_value(octets@),
{
    let mut acc: u128 = 0;
    let mut i: usize = 0;
    while i < 16
        invariant
            i <= 16,
            acc as nat == be_value(octets@.subrange(0, i as int)),
        decreases 16 - i,
    {
        proof {
            let pre = octets@.subrange(0, i as int);
            let next = octets@.subrange(0, i + 1);
            assert(next.drop_last() =~= pre);
            lemma_be_value_bound(pre);
            lemma2_to64();
            lemma_pow2_adds(120, 8);
            lemma_pow2_adds(8 * i as nat, (8 * (15 - i)) as nat);
            crate::prefix::lemma_pow2_128_bounds_u128(0);
            assert(acc * 256 + octets[i as int] < pow2(128)) by (nonlinear_arith)
                requires
                    (acc as int) < pow2(8 * i as nat),
                    pow2(8 * i as nat) * pow2((8 * (15 - i)) as nat) == pow2(120),
                    pow2((8 * (15 - i)) as nat) >= 1,
                    pow2(120) * 256 == pow2(128),
                    octets[i as int] < 256,
            ;
        }
        acc = acc * 256 + octets[i] as u128;
        i = i + 1;
    }
    assert(octets@.subrange(0, 16) =~= octets@);
    acc
}

/// Relies on etherparse's `Ethernet2HeaderSlice::from_slice`, which refuses a
/// slice shorter than 14 bytes, and on its `ether_type`, which reads bytes 12
/// and 13 in network order.
#[verifier::external_body]
fn read_ether_type(frame: &[u8]) -> (r: Option<u16>)
    ensures
        frame@.len() < 14 <==> r is None,
        r matches Some(t) ==> t as int == ether_type_of(frame@),
{
    match etherparse::Ethernet2HeaderSlice::from_slice(frame) {
        Ok(header) => Some(header.ether_type().0),
        Err(_) => None,
    }
}

/// Relies on etherparse's `Ipv6HeaderSlice::from_slice`, which reports a
/// length error for a slice shorter than 40 bytes and a content error when the
/// high nibble of the first byte is not 6, and on its `source`, which copies
/// bytes 8 to 23.
#[verifier::external_body]
fn read_ipv6_source(header: &[u8]) -> (r: Result<Octets, ParseError>)
    ensures
        header@.len() < 40 ==> r matches Err(ParseError::Truncated),
        header@.len() >= 40 && ipv6_version_of(header@) != 6 ==> r matches Err(ParseError::Malformed),
        header@.len() >= 40 && ipv6_version_of(header@) == 6 ==> r is Ok,
        r matches Ok(a) ==> a@ == header@.subrange(8, 24),
{
    match etherparse::Ipv6HeaderSlice::from_slice(header) {
        Ok(h) => Ok(h.source()),
        Err(etherparse::err::ipv6::HeaderSliceError::Len(_)) => Err(ParseError::Truncated),
        Err(etherparse::err::ipv6::HeaderSliceError::Content(_)) => Err(ParseError::Malformed),
    }
}

/// Decodes a captured frame: the Ethernet II header, and for an IPv6 payload
/// the fixed IPv6 header, whose source address is returned. Every byte
/// sequence is accepted: short or corrupted frames give an error, never a
/// failure of the call.
pub fn parse_frame(frame: &[u8]) -> (r: Result<Option<u128>, ParseError>)
    ensures
        r == frame_source(frame@),
{
    match read_ether_type(frame) {
        None => Err(ParseError::Truncated),
        Some(ether_type) => {
            if ether_type != IPV6_ETHER_TYPE {
                Ok(None)
            } else {
                let header = slice_subrange(frame, ETHERNET_HEADER_LEN, frame.len());
                proof {
                    let fixed = frame@.subrange(14, 54);
                    if frame@.len() >= 54 {
                        assert(header@[0] == fixed[0]);
                        assert(header@.subrange(8, 24) =~= fixed.subrange(8, 24));
                    }
                }
                match read_ipv6_source(header) {
                    Ok(octets) => Ok(Some(address_from_octets(octets))),
                    Err(e) => Err(e),
                }
            }
        }
    }
}

/// A frame shorter than an Ethernet header, or an IPv6 frame shorter than the
/// Ethernet and IPv6 headers together, is reported as truncated.
pub proof fn lemma_short_frames_truncated(frame: Seq<u8>)
    ensures
        frame.len() < 14 ==> frame_source(frame) == Err::<Option<u128>, ParseError>(ParseError::Truncated),
        frame.len() >= 14 && ether_type_of(frame) == 0x86DD && frame.len() < 54 ==> frame_source(frame) == Err::<Option<u128>, ParseError>(ParseError::Truncated),
{
}

} // verus!
