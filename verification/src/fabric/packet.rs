//! Messages as IPv6 packets.
//!
//! A tunnel only carries IP packets, so each message gets the least header that
//! makes it one. These headers never leave the tunnel's two ends.

use crate::fabric::error::{FabricError, FabricErrorView};
use crate::net::addr::Ipv6Addr;
use crate::numeral::{decimal, decimal_text};
use crate::radix::{
    be_bytes, be_value, byte_digits, exp, law_bytes_are_most_significant_first,
    lemma_be_bytes_of_value, lemma_be_value_of_bytes, lemma_exp_256, read_be, undigits, write_be,
};
use crate::text::{cat, cat3, copy_bytes};
use vstd::prelude::*;
use vstd::slice::slice_subrange;

verus! {

/// The length of the header.
pub const IPV6_HEADER_LEN: usize = 40;

/// The packet around a message: version 6, the length of the message, no next
/// header, a hop limit of 64, the two addresses and the message.
pub open spec fn packet_bytes(src: Ipv6Addr, dst: Ipv6Addr, payload: Seq<u8>) -> Seq<u8> {
    seq![0x60u8, 0, 0, 0] + be_bytes(payload.len() as int, 2) + seq![59u8, 64] + be_bytes(
        src.bits as int,
        16,
    ) + be_bytes(dst.bits as int, 16) + payload
}

/// What is in a packet.
#[verifier::ext_equal]
pub struct PacketView {
    pub src: Ipv6Addr,
    pub dst: Ipv6Addr,
    pub payload: Seq<u8>,
}

/// Why bytes are no packet: shorter than a header, not of version 6, or shorter
/// than the header says.
pub open spec fn packet_fault(bytes: Seq<u8>) -> Option<Seq<char>> {
    if bytes.len() < IPV6_HEADER_LEN {
        Some("ipv6 packet too short: "@ + decimal(bytes.len() as int))
    } else if bytes[0] / 16 != 6 {
        Some(
            "not an ipv6 packet (version nibble = "@ + decimal((bytes[0] / 16) as int) + ")"@,
        )
    } else if bytes.len() < IPV6_HEADER_LEN + be_value(bytes.subrange(4, 6)) {
        Some(
            "ipv6 length field "@ + decimal(be_value(bytes.subrange(4, 6)))
                + " exceeds available "@ + decimal(bytes.len() - IPV6_HEADER_LEN) + " bytes"@,
        )
    } else {
        None
    }
}

/// What is in a packet that has no fault; bytes behind its end do not count.
pub open spec fn packet_parts(bytes: Seq<u8>) -> PacketView {
    PacketView {
        src: Ipv6Addr { bits: be_value(bytes.subrange(8, 24)) as u128 },
        dst: Ipv6Addr { bits: be_value(bytes.subrange(24, 40)) as u128 },
        payload: bytes.subrange(40, 40 + be_value(bytes.subrange(4, 6))),
    }
}

/// Makes a message a packet; a message of more than 65535 bytes cannot be one.
pub fn build_ipv6_packet(src: Ipv6Addr, dst: Ipv6Addr, payload: &[u8]) -> (r: Result<
    Vec<u8>,
    FabricError,
>)
    ensures
        match r {
            Ok(b) => payload@.len() <= u16::MAX && b@ == packet_bytes(src, dst, payload@),
            Err(e) => payload@.len() > u16::MAX && e@ == FabricErrorView::Encoding(
                "payload "@ + decimal(payload@.len() as int) + " > u16::MAX"@,
            ),
        },
{
    let n = payload.len();
    if n > 65535 {
        return Err(
            FabricError::Encoding(
                cat3("payload ", decimal_text(n as u64).as_str(), " > u16::MAX"),
            ),
        );
    }
    let mut out: Vec<u8> = Vec::new();
    out.push(0x60);
    out.push(0);
    out.push(0);
    out.push(0);
    out.extend_from_slice(write_be(n as u128, 2).as_slice());
    out.push(59);
    out.push(64);
    out.extend_from_slice(src.octets().as_slice());
    out.extend_from_slice(dst.octets().as_slice());
    out.extend_from_slice(payload);
    assert(out@ =~= packet_bytes(src, dst, payload@));
    Ok(out)
}

/// Takes a packet apart.
pub fn parse_ipv6_packet(bytes: &[u8]) -> (r: Result<(Ipv6Addr, Ipv6Addr, Vec<u8>), FabricError>)
    ensures
        match r {
            Ok((src, dst, payload)) => packet_fault(bytes@) is None && packet_parts(bytes@) == (
            PacketView { src, dst, payload: payload@ }),
            Err(e) => packet_fault(bytes@) is Some && e@ == FabricErrorView::Encoding(
                packet_fault(bytes@)->0,
            ),
        },
{
    let n = bytes.len();
    if n < IPV6_HEADER_LEN {
        return Err(
            FabricError::Encoding(
                cat("ipv6 packet too short: ", decimal_text(n as u64).as_str()),
            ),
        );
    }
    let version: u8 = bytes[0] / 16;
    if version != 6 {
        return Err(
            FabricError::Encoding(
                cat3(
                    "not an ipv6 packet (version nibble = ",
                    decimal_text(version as u64).as_str(),
                    ")",
                ),
            ),
        );
    }
    proof {
        lemma_be_bytes_of_value(bytes@.subrange(4, 6));
        lemma_exp_256();
    }
    let length = read_be(slice_subrange(bytes, 4, 6)) as usize;
    if n - IPV6_HEADER_LEN < length {
        let mut s = cat3(
            "ipv6 length field ",
            decimal_text(length as u64).as_str(),
            " exceeds available ",
        );
        s.append(decimal_text((n - IPV6_HEADER_LEN) as u64).as_str());
        s.append(" bytes");
        return Err(FabricError::Encoding(s));
    }
    let src = Ipv6Addr::from_octets(slice_subrange(bytes, 8, 24));
    let dst = Ipv6Addr::from_octets(slice_subrange(bytes, 24, 40));
    let payload = copy_bytes(slice_subrange(bytes, IPV6_HEADER_LEN, IPV6_HEADER_LEN + length));
    Ok((src, dst, payload))
}

/// Where the parts of a packet are.
pub proof fn lemma_packet_layout(src: Ipv6Addr, dst: Ipv6Addr, payload: Seq<u8>)
    ensures
        packet_bytes(src, dst, payload).len() == 40 + payload.len(),
        packet_bytes(src, dst, payload)[0] == 0x60,
        packet_bytes(src, dst, payload).subrange(4, 6) == be_bytes(payload.len() as int, 2),
        packet_bytes(src, dst, payload).subrange(8, 24) == be_bytes(src.bits as int, 16),
        packet_bytes(src, dst, payload).subrange(24, 40) == be_bytes(dst.bits as int, 16),
        packet_bytes(src, dst, payload).subrange(40, 40 + payload.len() as int) == payload,
{
    let p = packet_bytes(src, dst, payload);
    assert(p.subrange(4, 6) =~= be_bytes(payload.len() as int, 2));
    assert(p.subrange(8, 24) =~= be_bytes(src.bits as int, 16));
    assert(p.subrange(24, 40) =~= be_bytes(dst.bits as int, 16));
    assert(p.subrange(40, 40 + payload.len() as int) =~= payload);
}

/// What was made a packet comes out as it went in.
pub proof fn law_packets_round_trip(src: Ipv6Addr, dst: Ipv6Addr, payload: Seq<u8>)
    requires
        payload.len() <= u16::MAX,
    ensures
        packet_fault(packet_bytes(src, dst, payload)) is None,
        packet_parts(packet_bytes(src, dst, payload)) == (PacketView { src, dst, payload }),
{
    lemma_packet_layout(src, dst, payload);
    lemma_exp_256();
    lemma_be_value_of_bytes(payload.len() as int, 2);
    lemma_be_value_of_bytes(src.bits as int, 16);
    lemma_be_value_of_bytes(dst.bits as int, 16);
}

/// What a packet looks like: version 6, no traffic class and no flow; the length
/// of the message, its upper byte first; 59 for no next header; 64 hops; where it
/// is from and where it goes, upper bytes first; and the message.
pub proof fn law_what_packets_look_like(src: Ipv6Addr, dst: Ipv6Addr, payload: Seq<u8>, i: int)
    requires
        payload.len() <= u16::MAX,
        0 <= i < 16,
    ensures
        ({
            let p = packet_bytes(src, dst, payload);
            &&& p.len() == 40 + payload.len()
            &&& p[0] == 0x60 && p[1] == 0 && p[2] == 0 && p[3] == 0
            &&& p[4] * 256 + p[5] == payload.len()
            &&& p[6] == 59 && p[7] == 64
            &&& p[8 + i] == (src.bits as int / exp(256, (15 - i) as nat)) % 256
            &&& p[24 + i] == (dst.bits as int / exp(256, (15 - i) as nat)) % 256
            &&& p.skip(40) == payload
        }),
{
    let p = packet_bytes(src, dst, payload);
    let n = payload.len() as int;
    law_bytes_are_most_significant_first(n, 2, 0);
    law_bytes_are_most_significant_first(n, 2, 1);
    law_bytes_are_most_significant_first(src.bits as int, 16, i);
    law_bytes_are_most_significant_first(dst.bits as int, 16, i);
    reveal_with_fuel(exp, 2);
    assert(p[4] == be_bytes(n, 2)[0] && p[5] == be_bytes(n, 2)[1]);
    assert(p[8 + i] == be_bytes(src.bits as int, 16)[i]);
    assert(p[24 + i] == be_bytes(dst.bits as int, 16)[i]);
    assert(p.skip(40) =~= payload);
    assert(n / 1 == n);
}

/// Bytes are a packet exactly if they hold a whole header of version 6 and as
/// many bytes behind it as the header names. The message is those bytes.
pub proof fn law_which_bytes_are_packets(bytes: Seq<u8>)
    ensures
        packet_fault(bytes) is None <==> bytes.len() >= 40 && bytes[0] / 16 == 6 && bytes.len() >= 40
            + bytes[4] * 256 + bytes[5],
        packet_fault(bytes) is None ==> packet_parts(bytes).payload == bytes.subrange(
            40,
            40 + bytes[4] * 256 + bytes[5],
        ),
{
    if bytes.len() >= 40 {
        let f = bytes.subrange(4, 6);
        let d = byte_digits(f);
        reveal_with_fuel(undigits, 3);
        assert(d.drop_last().drop_last() =~= Seq::<int>::empty());
        assert(d.drop_last() =~= seq![bytes[4] as int]);
        assert(be_value(f) == 256 * bytes[4] + bytes[5]);
    }
}

} // verus!
