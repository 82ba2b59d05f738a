//! Bulk transfers: framing of what is sent and parsing of device events.

use vstd::prelude::*;

use crate::bytes::{le32_bytes, le_nat, read_le32, read_le64};
use crate::usb::TransferError;

verus! {

/// Bulk OUT endpoint for instructions, and for everything in single-endpoint
/// mode.
pub const EP_INSTRUCTIONS: u8 = 0x01;

/// Bulk IN endpoint for output activations.
pub const EP_OUTPUT_ACTIVATIONS: u8 = 0x81;

/// Bulk IN endpoint for 16-byte DMA-request events.
pub const EP_EVENTS: u8 = 0x82;

/// Interrupt IN endpoint.
pub const EP_INTERRUPTS: u8 = 0x83;

/// Packet size of the bulk endpoints.
pub const MAX_PACKET: usize = 512;

/// What a bulk payload in single-endpoint mode is.
#[derive(Debug, Clone, Copy, PartialEq, Eq, Structural)]
pub enum DescriptorTag {
    Instructions,
    InputActivations,
    Parameters,
    OutputActivations,
}

/// The tag nibble of a payload kind.
pub open spec fn tag_number(tag: DescriptorTag) -> u8 {
    match tag {
        DescriptorTag::Instructions => 0,
        DescriptorTag::InputActivations => 1,
        DescriptorTag::Parameters => 2,
        DescriptorTag::OutputActivations => 3,
    }
}

impl DescriptorTag {
    /// The tag nibble.
    pub fn number(&self) -> (r: u8)
        ensures
            r == tag_number(*self),
    {
        match *self {
            DescriptorTag::Instructions => 0,
            DescriptorTag::InputActivations => 1,
            DescriptorTag::Parameters => 2,
            DescriptorTag::OutputActivations => 3,
        }
    }
}

/// The 8-byte header of a payload: its length modulo 2^32 in four bytes, the
/// tag nibble, and three zeros.
pub open spec fn is_header(h: Seq<u8>, tag: DescriptorTag, len: nat) -> bool {
    &&& h.len() == 8
    &&& le_nat(h.subrange(0, 4)) == len % 0x1_0000_0000
    &&& h[4] == tag_number(tag)
    &&& h[5] == 0
    &&& h[6] == 0
    &&& h[7] == 0
}

/// The header that goes over the instruction endpoint before `data` itself.
pub fn single_ep_send(tag: DescriptorTag, data: &[u8]) -> (header: Vec<u8>)
    ensures
        is_header(header@, tag, data@.len()),
{
    let len: u64 = data.len() as u64;
    let mut header: Vec<u8> = le32_bytes((len % 0x1_0000_0000) as u32);
    let ghost four = header@;
    header.push(tag.number());
    header.push(0);
    header.push(0);
    header.push(0);
    assert(header@.subrange(0, 4) =~= four);
    header
}

/// How many bytes to request from a bulk IN endpoint in order to receive `len`
/// bytes: the least nonzero multiple of the packet size that covers them.
pub open spec fn request_len(len: nat) -> nat {
    if len == 0 {
        512
    } else {
        ((len + 511) / 512) * 512
    }
}

/// The number of bytes to request in order to receive `len` bytes.
pub fn bulk_request_len(len: usize) -> (r: usize)
    requires
        request_len(len as nat) <= usize::MAX,
    ensures
        r == request_len(len as nat),
        r % MAX_PACKET == 0,
        r >= MAX_PACKET,
        len <= r <= len + MAX_PACKET,
{
    if len == 0 {
        return MAX_PACKET;
    }
    let whole: usize = len / MAX_PACKET;
    if len % MAX_PACKET == 0 {
        whole * MAX_PACKET
    } else {
        assert(request_len(len as nat) == (whole + 1) * 512);
        (whole + 1) * MAX_PACKET
    }
}

/// What `len` received bytes are: the received buffer, cut down to `len` bytes
/// if it is longer.
pub fn bulk_recv(received: Vec<u8>, len: usize) -> (r: Vec<u8>)
    ensures
        r@ == if len < received@.len() {
            received@.take(len as int)
        } else {
            received@
        },
{
    let mut v = received;
    v.truncate(len);
    assert(v@ =~= if len < received@.len() {
        received@.take(len as int)
    } else {
        received@
    });
    v
}

/// A completion event of the device.
#[derive(Debug, Clone, Copy, PartialEq, Eq, Structural)]
pub struct TpuEvent {
    pub device_address: u64,
    pub length: u32,
    pub tag: u8,
}

/// The event that a buffer holds: eight bytes of address, four bytes of length
/// and the tag in the lower nibble of the next byte.
pub open spec fn event_of(b: Seq<u8>) -> Option<TpuEvent> {
    if b.len() < 13 {
        None
    } else {
        Some(
            TpuEvent {
                device_address: le_nat(b.subrange(0, 8)) as u64,
                length: le_nat(b.subrange(8, 12)) as u32,
                tag: b[12] % 16,
            },
        )
    }
}

impl TpuEvent {
    /// Parses an event.
    pub fn from_bytes(b: &[u8]) -> (r: Option<TpuEvent>)
        ensures
            r == event_of(b@),
    {
        if b.len() < 13 {
            return None;
        }
        Some(
            TpuEvent {
                device_address: read_le64(b, 0),
                length: read_le32(b, 8),
                tag: b[12] % 16,
            },
        )
    }
}

/// The event in the bytes that were read from the event endpoint.
pub fn read_event(data: &[u8]) -> (r: Result<TpuEvent, TransferError>)
    ensures
        r == match event_of(data@) {
            Some(e) => Ok::<TpuEvent, TransferError>(e),
            None => Err(TransferError::Unknown(0)),
        },
{
    match TpuEvent::from_bytes(data) {
        Some(e) => Ok(e),
        None => Err(TransferError::Unknown(0)),
    }
}

/// The status word of an interrupt: its first four bytes, or zero if there are
/// fewer.
pub fn interrupt_status(data: &[u8]) -> (r: u32)
    ensures
        r == if data@.len() < 4 {
            0
        } else {
            le_nat(data@.subrange(0, 4))
        },
{
    if data.len() < 4 {
        0
    } else {
        read_le32(data, 0)
    }
}

/// The request for some bytes covers them and is a whole, nonzero number of
/// packets, and no smaller request is.
pub proof fn law_request_len(len: nat, other: nat)
    ensures
        len <= request_len(len),
        request_len(len) % 512 == 0,
        request_len(len) > 0,
        len <= other && other % 512 == 0 && other > 0 ==> request_len(len) <= other,
{
}

/// The header of a payload shorter than 4 GiB tells its length and kind.
pub proof fn law_header_is_readable(
    h: Seq<u8>,
    tag: DescriptorTag,
    len: nat,
    other_tag: DescriptorTag,
    other_len: nat,
)
    requires
        is_header(h, tag, len),
        is_header(h, other_tag, other_len),
        len < 0x1_0000_0000,
        other_len < 0x1_0000_0000,
    ensures
        tag == other_tag,
        len == other_len,
{
}

/// A header is the length of the payload, least significant byte first, the tag
/// of its kind and three zeros.
pub proof fn law_header_bytes(h: Seq<u8>, tag: DescriptorTag, len: nat)
    requires
        is_header(h, tag, len),
    ensures
        h.len() == 8,
        h[0] + 0x100 * h[1] + 0x1_0000 * h[2] + 0x100_0000 * h[3] == len % 0x1_0000_0000,
        h[4] == match tag {
            DescriptorTag::Instructions => 0u8,
            DescriptorTag::InputActivations => 1,
            DescriptorTag::Parameters => 2,
            DescriptorTag::OutputActivations => 3,
        },
        h[5] == 0 && h[6] == 0 && h[7] == 0,
{
    let four = h.subrange(0, 4);
    crate::bytes::lemma_le_nat_4(four);
    assert(four[0] == h[0] && four[1] == h[1] && four[2] == h[2] && four[3] == h[3]);
}

/// An event is eight bytes of address, four of length, both least significant
/// byte first, and a tag in the lower half of the next byte. Shorter buffers
/// hold none; longer ones do not matter.
pub proof fn law_event_bytes(b: Seq<u8>)
    ensures
        event_of(b) is Some <==> b.len() >= 13,
        event_of(b) matches Some(e) ==> {
            &&& e.device_address == b[0] + 0x100 * b[1] + 0x1_0000 * b[2] + 0x100_0000 * b[3]
                + 0x1_0000_0000 * b[4] + 0x100_0000_0000 * b[5] + 0x1_0000_0000_0000 * b[6]
                + 0x100_0000_0000_0000 * b[7]
            &&& e.length == b[8] + 0x100 * b[9] + 0x1_0000 * b[10] + 0x100_0000 * b[11]
            &&& e.tag == b[12] % 16
        },
{
    if b.len() >= 13 {
        let address = b.subrange(0, 8);
        let length = b.subrange(8, 12);
        crate::bytes::lemma_le_nat_8(address);
        crate::bytes::lemma_le_nat_4(length);
        assert(address[0] == b[0] && address[1] == b[1] && address[2] == b[2] && address[3] == b[3]
            && address[4] == b[4] && address[5] == b[5] && address[6] == b[6] && address[7]
            == b[7]);
        assert(length[0] == b[8] && length[1] == b[9] && length[2] == b[10] && length[3] == b[11]);
    }
}

/// The endpoints of the device: one to send to, and one each for output, events
/// and interrupts.
pub proof fn law_endpoints()
    ensures
        EP_INSTRUCTIONS == 0x01,
        EP_OUTPUT_ACTIVATIONS == 0x81,
        EP_EVENTS == 0x82,
        EP_INTERRUPTS == 0x83,
        MAX_PACKET == 512,
{
}

} // verus!
