use vstd::prelude::*;
use vstd::slice::slice_subrange;

use crate::record::DecodeFailure;

verus! {

/// Byte length of an Ethernet II header.
pub const ETHERNET_HEADER_LEN: usize = 14;

/// Byte length of a UDP header.
pub const UDP_HEADER_LEN: usize = 8;

/// The IPv4 protocol number of UDP.
pub const PROTOCOL_UDP: u8 = 17;

/// The version nibble of the first IPv4 header byte.
pub open spec fn ipv4_version(d: Seq<u8>) -> int {
    d[14] as int / 16
}

/// The IHL nibble of the first IPv4 header byte: the header length in
/// 32-bit words, so the header spans `4 * ipv4_ihl(d)` bytes.
pub open spec fn ipv4_ihl(d: Seq<u8>) -> int {
    d[14] as int % 16
}

/// The frame parses as Ethernet II carrying a complete IPv4 header:
/// the ethertype is 0x0800, the version nibble is 4, the header-length
/// field is at least the 20-byte minimum, and the buffer holds the
/// whole IPv4 header (options included).
pub open spec fn frame_parses(d: Seq<u8>) -> bool {
    &&& d.len() >= 14 + 20
    &&& d[12] == 0x08
    &&& d[13] == 0x00
    &&& ipv4_version(d) == 4
    &&& ipv4_ihl(d) >= 5
    &&& d.len() >= 14 + 4 * ipv4_ihl(d)
}

/// The IPv4 protocol field announces UDP.
pub open spec fn frame_is_udp(d: Seq<u8>) -> bool {
    d[23] == PROTOCOL_UDP
}

/// Where the UDP payload starts: Ethernet header, IPv4 header as
/// declared by its own length field, then the UDP header.
pub open spec fn payload_offset(d: Seq<u8>) -> int {
    14 + 4 * ipv4_ihl(d) + 8
}

/// What extraction returns: the bytes after the UDP header, provided
/// the frame parses, is UDP, and at least one payload byte is present.
/// An empty payload is treated as absent, exactly as a truncated one.
pub open spec fn spec_extract(d: Seq<u8>) -> Option<Seq<u8>> {
    if frame_parses(d) && frame_is_udp(d) && d.len() > payload_offset(d) {
        Some(d.subrange(payload_offset(d), d.len() as int))
    } else {
        None
    }
}

/// Which rejection a frame without a payload earns.
pub open spec fn spec_extract_failure(d: Seq<u8>) -> DecodeFailure {
    if !frame_parses(d) {
        DecodeFailure::FrameMalformed
    } else if !frame_is_udp(d) {
        DecodeFailure::NotUdp
    } else {
        DecodeFailure::PayloadTruncated
    }
}

/// Returns the sub-slice after the Ethernet, IPv4 and UDP headers,
/// given the IPv4 header length in bytes, or `None` when the buffer
/// ends at or before that point.
pub fn extract_udp_payload<'a>(data: &'a [u8], ip_header_len: usize) -> (r: Option<&'a [u8]>)
    requires
        ip_header_len <= 60,
    ensures
        match r {
            Some(p) => {
                &&& data@.len() > 14 + ip_header_len + 8
                &&& p@ == data@.subrange(14 + ip_header_len + 8, data@.len() as int)
            },
            None => data@.len() <= 14 + ip_header_len + 8,
        },
{
    let offset: usize = ETHERNET_HEADER_LEN + ip_header_len + UDP_HEADER_LEN;
    if data.len() > offset {
        Some(slice_subrange(data, offset, data.len()))
    } else {
        None
    }
}

/// Parses the Ethernet and IPv4 headers, checks the transport is UDP,
/// and returns the payload after the UDP header, or the reason the
/// frame was rejected.
pub fn extract_frame_payload<'a>(data: &'a [u8]) -> (r: Result<&'a [u8], DecodeFailure>)
    ensures
        match r {
            Ok(p) => spec_extract(data@) == Some(p@),
            Err(e) => spec_extract(data@) is None && e == spec_extract_failure(data@),
        },
{
    if data.len() < 34 {
        return Err(DecodeFailure::FrameMalformed);
    }
    if !(data[12] == 0x08 && data[13] == 0x00) {
        return Err(DecodeFailure::FrameMalformed);
    }
    let version_ihl = data[14];
    if version_ihl / 16 != 4 {
        return Err(DecodeFailure::FrameMalformed);
    }
    let ihl = version_ihl % 16;
    if ihl < 5 {
        return Err(DecodeFailure::FrameMalformed);
    }
    let ip_header_len: usize = 4 * (ihl as usize);
    if data.len() < 14 + ip_header_len {
        return Err(DecodeFailure::FrameMalformed);
    }
    if data[23] != PROTOCOL_UDP {
        return Err(DecodeFailure::NotUdp);
    }
    match extract_udp_payload(data, ip_header_len) {
        Some(p) => Ok(p),
        None => Err(DecodeFailure::PayloadTruncated),
    }
}

/// Extracts the UDP payload from a raw captured frame, or `None` for
/// any rejected frame: the silent-skip form of `extract_frame_payload`.
pub fn extract_udp_payload_from_packet<'a>(data: &'a [u8]) -> (r: Option<&'a [u8]>)
    ensures
        match r {
            Some(p) => spec_extract(data@) == Some(p@),
            None => spec_extract(data@) is None,
        },
{
    match extract_frame_payload(data) {
        Ok(p) => Some(p),
        Err(_) => None,
    }
}

/// A valid UDP frame whose buffer ends exactly at the UDP header
/// boundary — a payload truncated to zero bytes — yields no payload.
pub proof fn lemma_truncated_payload(d: Seq<u8>)
    requires
        frame_parses(d),
        frame_is_udp(d),
        d.len() <= payload_offset(d),
    ensures
        spec_extract(d) is None,
{
}

/// A valid frame carrying a non-UDP transport yields no payload,
/// whatever the payload bytes hold.
pub proof fn lemma_non_udp_skipped(d: Seq<u8>)
    requires
        frame_parses(d),
        !frame_is_udp(d),
    ensures
        spec_extract(d) is None,
{
}

/// The payload is located past the IPv4 options: for any accepted
/// frame it starts at 14 bytes of Ethernet header, `4 * ipv4_ihl(d)`
/// bytes of IPv4 header — 24 or more when options are present — and
/// 8 bytes of UDP header.
pub proof fn lemma_options_offset(d: Seq<u8>)
    requires
        frame_parses(d),
        frame_is_udp(d),
        d.len() > 14 + 4 * ipv4_ihl(d) + 8,
    ensures
        spec_extract(d) == Some(d.subrange(14 + 4 * ipv4_ihl(d) + 8, d.len() as int)),
{
}

} // verus!
