//! Access to the chip's registers through vendor control transfers.

use vstd::prelude::*;

use crate::bytes::{le32_bytes, le64_bytes, le_nat, read_le32, read_le64};
use crate::usb::TransferError;

verus! {

/// Who defines a control request.
#[derive(Debug, Clone, Copy, PartialEq, Eq, Structural)]
pub enum ControlKind {
    Vendor,
    Class,
}

/// Whom a control request addresses.
#[derive(Debug, Clone, Copy, PartialEq, Eq, Structural)]
pub enum ControlTarget {
    Device,
    Interface,
}

/// A device-to-host control transfer.
#[derive(Debug, Clone, Copy, PartialEq, Eq, Structural)]
pub struct ControlRead {
    pub kind: ControlKind,
    pub target: ControlTarget,
    pub request: u8,
    pub value: u16,
    pub index: u16,
    /// Number of bytes to read.
    pub length: u16,
    pub timeout_ms: u64,
}

/// A host-to-device control transfer.
#[derive(Debug)]
pub struct ControlWrite {
    pub kind: ControlKind,
    pub target: ControlTarget,
    pub request: u8,
    pub value: u16,
    pub index: u16,
    /// The bytes to write.
    pub data: Vec<u8>,
    pub timeout_ms: u64,
}

/// The transfer that reads `length` bytes of the register at `offset`. Eight
/// bytes go with request 0, four with request 1. The lower half of the offset is
/// the value of the request and the upper half its index.
pub open spec fn register_read(offset: u32, length: u16) -> ControlRead {
    ControlRead {
        kind: ControlKind::Vendor,
        target: ControlTarget::Device,
        request: if length == 8 {
            0
        } else {
            1
        },
        value: (offset % 0x1_0000) as u16,
        index: (offset / 0x1_0000) as u16,
        length,
        timeout_ms: 1000,
    }
}

/// `w` writes the number `value` as `length` bytes to the register at `offset`.
pub open spec fn is_register_write(w: ControlWrite, offset: u32, value: nat, length: nat) -> bool {
    &&& w.kind == ControlKind::Vendor
    &&& w.target == ControlTarget::Device
    &&& w.request == if length == 8 {
        0u8
    } else {
        1u8
    }
    &&& w.value == offset % 0x1_0000
    &&& w.index == offset / 0x1_0000
    &&& w.data@.len() == length
    &&& le_nat(w.data@) == value
    &&& w.timeout_ms == 1000
}

/// The transfer that reads the 64-bit register at `offset`.
pub fn read_register64(offset: u32) -> (r: ControlRead)
    ensures
        r == register_read(offset, 8),
{
    ControlRead {
        kind: ControlKind::Vendor,
        target: ControlTarget::Device,
        request: 0,
        value: (offset % 0x1_0000) as u16,
        index: (offset / 0x1_0000) as u16,
        length: 8,
        timeout_ms: 1000,
    }
}

/// The transfer that reads the 32-bit register at `offset`.
pub fn read_register32(offset: u32) -> (r: ControlRead)
    ensures
        r == register_read(offset, 4),
{
    ControlRead {
        kind: ControlKind::Vendor,
        target: ControlTarget::Device,
        request: 1,
        value: (offset % 0x1_0000) as u16,
        index: (offset / 0x1_0000) as u16,
        length: 4,
        timeout_ms: 1000,
    }
}

/// The transfer that writes `value` to the 64-bit register at `offset`.
pub fn write_register64(offset: u32, value: u64) -> (r: ControlWrite)
    ensures
        is_register_write(r, offset, value as nat, 8),
{
    ControlWrite {
        kind: ControlKind::Vendor,
        target: ControlTarget::Device,
        request: 0,
        value: (offset % 0x1_0000) as u16,
        index: (offset / 0x1_0000) as u16,
        data: le64_bytes(value),
        timeout_ms: 1000,
    }
}

/// The transfer that writes `value` to the 32-bit register at `offset`.
pub fn write_register32(offset: u32, value: u32) -> (r: ControlWrite)
    ensures
        is_register_write(r, offset, value as nat, 4),
{
    ControlWrite {
        kind: ControlKind::Vendor,
        target: ControlTarget::Device,
        request: 1,
        value: (offset % 0x1_0000) as u16,
        index: (offset / 0x1_0000) as u16,
        data: le32_bytes(value),
        timeout_ms: 1000,
    }
}

/// The value in the reply to a 64-bit register read.
pub fn register64_value(reply: &[u8]) -> (r: Result<u64, TransferError>)
    ensures
        reply@.len() == 8 ==> (r matches Ok(v) && v == le_nat(reply@)),
        reply@.len() != 8 ==> r == Err::<u64, TransferError>(TransferError::Unknown(0)),
{
    if reply.len() == 8 {
        assert(reply@.subrange(0, 8) =~= reply@);
        Ok(read_le64(reply, 0))
    } else {
        Err(TransferError::Unknown(0))
    }
}

/// The value in the reply to a 32-bit register read.
pub fn register32_value(reply: &[u8]) -> (r: Result<u32, TransferError>)
    ensures
        reply@.len() == 4 ==> (r matches Ok(v) && v == le_nat(reply@)),
        reply@.len() != 4 ==> r == Err::<u32, TransferError>(TransferError::Unknown(0)),
{
    if reply.len() == 4 {
        assert(reply@.subrange(0, 4) =~= reply@);
        Ok(read_le32(reply, 0))
    } else {
        Err(TransferError::Unknown(0))
    }
}

/// The field of `v` that starts at bit `shift` and has the width of `mask`.
pub open spec fn field_of(v: u32, shift: u32, mask: u32) -> u32 {
    (v >> shift) & mask
}

/// Reads a field out of a register value.
pub fn extract_field(v: u32, shift: u32, mask: u32) -> (r: u32)
    requires
        shift < 32,
    ensures
        r == field_of(v, shift, mask),
{
    (v >> shift) & mask
}

/// What to do next while polling a register.
#[derive(Debug, Clone, Copy, PartialEq, Eq, Structural)]
pub enum PollStep {
    /// Read the register at this offset.
    Read(u32),
    /// The register shows the expected value.
    Done,
    /// A read failed, or the attempts are used up.
    Failed(TransferError),
}

/// A 32-bit register that is read until one of its fields has some value.
#[derive(Debug, Clone, Copy, PartialEq, Eq, Structural)]
pub struct RegisterPoll {
    pub reg: u32,
    pub shift: u32,
    pub mask: u32,
    pub expected: u32,
    /// How many more reads are allowed.
    pub remaining: u32,
}

/// Whether a register value ends the poll.
pub open spec fn poll_hits(p: RegisterPoll, v: u32) -> bool {
    field_of(v, p.shift, p.mask) == p.expected
}

/// A poll with one read less.
pub open spec fn poll_used(p: RegisterPoll) -> RegisterPoll {
    RegisterPoll { remaining: (p.remaining - 1) as u32, ..p }
}

/// What a poll does when its last read came back with `last`, or at its start.
/// A failed read ends it at once.
pub open spec fn poll_next(
    p: RegisterPoll,
    last: Option<Result<u32, TransferError>>,
) -> (RegisterPoll, PollStep) {
    match last {
        Some(Err(e)) => (p, PollStep::Failed(e)),
        _ => if last matches Some(Ok(v)) && poll_hits(p, v) {
            (p, PollStep::Done)
        } else if p.remaining == 0 {
            (p, PollStep::Failed(TransferError::Unknown(0)))
        } else {
            (poll_used(p), PollStep::Read(p.reg))
        },
    }
}

/// Polls the register at `reg` until it equals `expected`, in at most
/// `max_attempts` reads.
pub fn poll_register(reg: u32, expected: u32, max_attempts: u32) -> (r: RegisterPoll)
    ensures
        r.reg == reg,
        r.remaining == max_attempts,
        r.shift < 32,
        forall|v: u32| #[trigger] poll_hits(r, v) == (v == expected),
{
    let r = RegisterPoll {
        reg,
        shift: 0,
        mask: 0xFFFF_FFFF,
        expected,
        remaining: max_attempts,
    };
    assert forall|v: u32| #[trigger] poll_hits(r, v) == (v == expected) by {
        assert((v >> 0u32) & 0xFFFF_FFFFu32 == v) by (bit_vector);
    }
    r
}

/// Polls the register at `reg` until the field that `shift` and `mask` select
/// equals `expected_field`, in at most `max_attempts` reads.
pub fn poll_field(
    reg: u32,
    shift: u32,
    mask: u32,
    expected_field: u32,
    max_attempts: u32,
) -> (r: RegisterPoll)
    ensures
        r == (RegisterPoll { reg, shift, mask, expected: expected_field, remaining: max_attempts }),
{
    RegisterPoll { reg, shift, mask, expected: expected_field, remaining: max_attempts }
}

impl RegisterPoll {
    /// Takes the outcome of the last read, `None` at the start, and tells what
    /// to do next.
    pub fn next(&mut self, last: Option<Result<u32, TransferError>>) -> (r: PollStep)
        requires
            old(self).shift < 32,
        ensures
            (*final(self), r) == poll_next(*old(self), last),
    {
        match last {
            Some(Err(e)) => {
                return PollStep::Failed(e);
            },
            Some(Ok(v)) => {
                if extract_field(v, self.shift, self.mask) == self.expected {
                    return PollStep::Done;
                }
            },
            None => {},
        }
        if self.remaining == 0 {
            return PollStep::Failed(TransferError::Unknown(0));
        }
        self.remaining = self.remaining - 1;
        PollStep::Read(self.reg)
    }
}

/// The poll after it has read the given values.
pub open spec fn poll_after(p: RegisterPoll, values: Seq<u32>) -> (RegisterPoll, PollStep)
    decreases values.len(),
{
    if values.len() == 0 {
        poll_next(p, None)
    } else {
        poll_next(poll_after(p, values.drop_last()).0, Some(Ok(values.last())))
    }
}

/// The state of a poll that has missed on every value so far.
proof fn lemma_poll_misses(p: RegisterPoll, values: Seq<u32>)
    requires
        values.len() < p.remaining,
        forall|i: int| 0 <= i < values.len() ==> !poll_hits(p, #[trigger] values[i]),
    ensures
        poll_after(p, values) == (
            RegisterPoll { remaining: (p.remaining - values.len() - 1) as u32, ..p },
            PollStep::Read(p.reg),
        ),
    decreases values.len(),
{
    if values.len() > 0 {
        assert(!poll_hits(p, values[values.len() - 1]));
        lemma_poll_misses(p, values.drop_last());
    }
}

/// A poll is done upon the first value that hits, as long as its number of
/// reads does not exceed the allowed attempts.
pub proof fn law_poll_succeeds(p: RegisterPoll, values: Seq<u32>)
    requires
        0 < values.len() <= p.remaining,
        forall|i: int| 0 <= i < values.len() - 1 ==> !poll_hits(p, #[trigger] values[i]),
        poll_hits(p, values.last()),
    ensures
        poll_after(p, values).1 == PollStep::Done,
{
    lemma_poll_misses(p, values.drop_last());
}

/// A poll that misses on every allowed read fails after exactly that many
/// reads.
pub proof fn law_poll_gives_up(p: RegisterPoll, values: Seq<u32>)
    requires
        values.len() == p.remaining,
        forall|i: int| 0 <= i < values.len() ==> !poll_hits(p, #[trigger] values[i]),
    ensures
        poll_after(p, values).1 == PollStep::Failed(TransferError::Unknown(0)),
{
    if values.len() > 0 {
        assert(!poll_hits(p, values[values.len() - 1]));
        lemma_poll_misses(p, values.drop_last());
    }
}

/// A failed read ends a poll with its error, whatever was read before.
pub proof fn law_poll_passes_errors_on(p: RegisterPoll, values: Seq<u32>, e: TransferError)
    ensures
        poll_next(poll_after(p, values).0, Some(Err(e))).1 == PollStep::Failed(e),
{
}

/// The value and the index of a register transfer together give back the
/// register offset.
pub proof fn law_offset_survives_split(offset: u32, length: u16)
    ensures
        register_read(offset, length).value + 0x1_0000 * register_read(offset, length).index
            == offset,
{
}

/// Two register writes carry the same bytes only if they carry the same value.
pub proof fn law_write_data_determines_value(
    a: ControlWrite,
    b: ControlWrite,
    offset: u32,
    v: nat,
    w: nat,
    length: nat,
)
    requires
        is_register_write(a, offset, v, length),
        is_register_write(b, offset, w, length),
    ensures
        a.data@ == b.data@ <==> v == w,
{
    if v == w {
        crate::bytes::lemma_le_nat_injective(a.data@, b.data@);
    }
}

/// Register reads are vendor requests to the device within a second: request 0
/// for eight bytes, request 1 for four, with the offset split into value and
/// index.
pub proof fn law_register_reads(offset: u32)
    ensures
        ({
            let wide = register_read(offset, 8);
            let narrow = register_read(offset, 4);
            &&& wide.kind is Vendor && narrow.kind is Vendor
            &&& wide.target is Device && narrow.target is Device
            &&& wide.request == 0 && narrow.request == 1
            &&& wide.length == 8 && narrow.length == 4
            &&& wide.timeout_ms == 1000 && narrow.timeout_ms == 1000
            &&& wide.value + 0x1_0000 * wide.index == offset
            &&& narrow.value + 0x1_0000 * narrow.index == offset
        }),
{
}

/// Register writes are vendor requests to the device within a second, numbered
/// and addressed like the reads, and carry the value least significant byte
/// first.
pub proof fn law_register_writes(w: ControlWrite, offset: u32, value: u64)
    requires
        is_register_write(w, offset, value as nat, 8) || (value <= u32::MAX && is_register_write(
            w,
            offset,
            value as nat,
            4,
        )),
    ensures
        w.kind is Vendor,
        w.target is Device,
        w.timeout_ms == 1000,
        w.value + 0x1_0000 * w.index == offset,
        w.data@.len() == 8 || w.data@.len() == 4,
        w.request == if w.data@.len() == 8 {
            0u8
        } else {
            1
        },
        w.data@.len() == 4 ==> value == w.data@[0] + 0x100 * w.data@[1] + 0x1_0000 * w.data@[2]
            + 0x100_0000 * w.data@[3],
        w.data@.len() == 8 ==> value == w.data@[0] + 0x100 * w.data@[1] + 0x1_0000 * w.data@[2]
            + 0x100_0000 * w.data@[3] + 0x1_0000_0000 * w.data@[4] + 0x100_0000_0000 * w.data@[5]
            + 0x1_0000_0000_0000 * w.data@[6] + 0x100_0000_0000_0000 * w.data@[7],
{
    if w.data@.len() == 8 {
        crate::bytes::lemma_le_nat_8(w.data@);
    } else {
        crate::bytes::lemma_le_nat_4(w.data@);
    }
}

/// Bit `j` of a field is bit `shift + j` of the register, as far as the mask
/// lets it through.
pub proof fn law_field_bits(v: u32, shift: u32, mask: u32, j: u32)
    requires
        shift < 32,
        j < 32,
    ensures
        (field_of(v, shift, mask) >> j) & 1 == if shift + j < 32 {
            (v >> ((shift + j) as u32)) & 1 & (mask >> j)
        } else {
            0
        },
{
    if shift + j < 32 {
        let k: u32 = (shift + j) as u32;
        assert((((v >> shift) & mask) >> j) & 1 == (v >> k) & 1 & (mask >> j)) by (bit_vector)
            requires
                shift < 32,
                j < 32,
                k == shift + j,
                k < 32,
        ;
    } else {
        assert((((v >> shift) & mask) >> j) & 1 == 0) by (bit_vector)
            requires
                shift < 32,
                j < 32,
                shift + j >= 32,
        ;
    }
}

/// A poll is done exactly upon a value with the expected field. On any other
/// value it reads the same register again, as long as it has attempts left, and
/// uses one up.
pub proof fn law_poll_decides(p: RegisterPoll, v: u32)
    requires
        p.shift < 32,
    ensures
        ({
            let (q, step) = poll_next(p, Some(Ok(v)));
            let hit = (v >> p.shift) & p.mask == p.expected;
            &&& step is Done <==> hit
            &&& !hit && p.remaining > 0 ==> step == PollStep::Read(p.reg) && q == (RegisterPoll {
                remaining: (p.remaining - 1) as u32,
                ..p
            })
            &&& !hit && p.remaining == 0 ==> step == PollStep::Failed(TransferError::Unknown(0))
        }),
        p.remaining > 0 ==> poll_next(p, None) == (
            RegisterPoll { remaining: (p.remaining - 1) as u32, ..p },
            PollStep::Read(p.reg),
        ),
        p.remaining == 0 ==> poll_next(p, None).1 == PollStep::Failed(TransferError::Unknown(0)),
{
}

} // verus!
