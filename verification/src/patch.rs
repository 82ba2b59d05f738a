//! Patching base addresses into instruction bitstreams.
//!
//! A bitstream is looked at as a sequence of bits, least significant bit of
//! each byte first. An address field is a run of 32 bits at any bit position.

pub use vstd::hash_map::StringHashMap;
use vstd::prelude::*;

use crate::model::{ChunkInfo, ChunkView, Description, OffsetInfo, OffsetView, Position};

verus! {

/// Bit `k` of a byte.
pub open spec fn byte_bit(b: u8, k: int) -> bool {
    (b >> (k as u8)) & 1 == 1
}

/// Bit `i` of a 32-bit word.
pub open spec fn word_bit(w: u32, i: int) -> bool {
    (w >> (i as u32)) & 1 == 1
}

/// Bit `i` of a 64-bit address.
pub open spec fn address_bit(a: u64, i: int) -> bool {
    (a >> (i as u64)) & 1 == 1
}

/// Bit `p` of a byte sequence.
pub open spec fn bit_at(buf: Seq<u8>, p: int) -> bool {
    byte_bit(buf[p / 8], p % 8)
}

/// Sets bit `k` of `b` to the lowest bit of `bit`.
fn with_bit(b: u8, k: u8, bit: u8) -> (r: u8)
    requires
        k < 8,
        bit < 2,
    ensures
        byte_bit(r, k as int) == (bit == 1),
        forall|j: int| 0 <= j < 8 && j != k ==> #[trigger] byte_bit(r, j) == byte_bit(b, j),
{
    let r: u8 = (b & !(1u8 << k)) | (bit << k);
    assert((r >> k) & 1 == bit) by (bit_vector)
        requires
            k < 8,
            bit < 2,
            r == (b & !(1u8 << k)) | (bit << k),
    ;
    assert forall|j: int| 0 <= j < 8 && j != k implies #[trigger] byte_bit(r, j) == byte_bit(b, j) by {
        let m: u8 = j as u8;
        assert((r >> m) & 1 == (b >> m) & 1) by (bit_vector)
            requires
                k < 8,
                m < 8,
                m != k,
                bit < 2,
                r == (b & !(1u8 << k)) | (bit << k),
        ;
    }
    r
}

/// Writes the 32 bits of `value` into `buf`, starting at bit `offset_bit`.
pub fn copy_u32_bits(buf: &mut [u8], offset_bit: usize, value: u32)
    requires
        offset_bit + 32 <= 8 * old(buf)@.len(),
        offset_bit + 31 <= usize::MAX,
    ensures
        final(buf)@.len() == old(buf)@.len(),
        forall|p: int|
            0 <= p < 8 * old(buf)@.len() ==> #[trigger] bit_at(final(buf)@, p) == if offset_bit <= p
                < offset_bit + 32 {
                word_bit(value, p - offset_bit)
            } else {
                bit_at(old(buf)@, p)
            },
{
    let ghost before = buf@;
    let mut i: usize = 0;
    while i < 32
        invariant
            i <= 32,
            offset_bit + 32 <= 8 * before.len(),
            offset_bit + 31 <= usize::MAX,
            buf@.len() == before.len(),
            forall|p: int|
                0 <= p < 8 * before.len() ==> #[trigger] bit_at(buf@, p) == if offset_bit <= p
                    < offset_bit + i {
                    word_bit(value, p - offset_bit)
                } else {
                    bit_at(before, p)
                },
        decreases 32 - i,
    {
        let bit_pos: usize = offset_bit + i;
        let byte_idx: usize = bit_pos / 8;
        let bit_idx: u8 = (bit_pos % 8) as u8;
        let shift: u32 = i as u32;
        assert((value >> shift) & 1 < 2) by (bit_vector);
        let bit: u8 = ((value >> shift) & 1) as u8;
        let ghost prev = buf@;
        let updated: u8 = with_bit(buf[byte_idx], bit_idx, bit);
        buf[byte_idx] = updated;
        assert forall|p: int| 0 <= p < 8 * before.len() implies #[trigger] bit_at(buf@, p)
            == if offset_bit <= p < offset_bit + i + 1 {
            word_bit(value, p - offset_bit)
        } else {
            bit_at(before, p)
        } by {
            assert(bit_at(prev, p) == if offset_bit <= p < offset_bit + i {
                word_bit(value, p - offset_bit)
            } else {
                bit_at(before, p)
            });
            if p / 8 == byte_idx {
                if p % 8 == bit_idx {
                    assert(p == bit_pos);
                } else {
                    assert(byte_bit(updated, p % 8) == byte_bit(prev[p / 8], p % 8));
                }
            }
        }
        i = i + 1;
    }
}

/// The half of an address that goes into a field: the lower 32 bits, or the
/// upper ones.
pub open spec fn address_half(addr: u64, upper: bool) -> u32 {
    if upper {
        (addr / 0x1_0000_0000) as u32
    } else {
        (addr % 0x1_0000_0000) as u32
    }
}

/// `after` is `before` with one half of `addr` in the field at `offset_bit`: the
/// lower half for position 0 and the upper half for any other.
pub open spec fn is_field_patch(
    before: Seq<u8>,
    offset_bit: int,
    position: u8,
    addr: u64,
    after: Seq<u8>,
) -> bool {
    &&& after.len() == before.len()
    &&& forall|p: int|
        0 <= p < 8 * before.len() ==> #[trigger] bit_at(after, p) == if offset_bit <= p < offset_bit
            + 32 {
            word_bit(address_half(addr, position != 0), p - offset_bit)
        } else {
            bit_at(before, p)
        }
}

/// Writes one half of `addr` into the field at `offset_bit`: the lower half for
/// position 0 and the upper half for any other.
pub fn patch_field(buf: &mut [u8], offset_bit: usize, position: u8, addr: u64)
    requires
        offset_bit + 32 <= 8 * old(buf)@.len(),
        offset_bit + 31 <= usize::MAX,
    ensures
        is_field_patch(old(buf)@, offset_bit as int, position, addr, final(buf)@),
{
    let word: u32 = if position == 0 {
        (addr % 0x1_0000_0000) as u32
    } else {
        (addr / 0x1_0000_0000) as u32
    };
    copy_u32_bits(buf, offset_bit, word);
}

/// The base addresses that an instruction stream refers to.
pub struct Addresses {
    pub params: u64,
    pub input: u64,
    /// Output buffer addresses by layer name.
    pub outputs: Map<Seq<char>, u64>,
}

/// The base address that a field refers to; scratch, unknown kinds and unknown
/// output layers read as zero.
pub open spec fn base_address(f: OffsetView, a: Addresses) -> u64 {
    match f.desc {
        Description::BaseAddressParameter => a.params,
        Description::BaseAddressInputActivation => a.input,
        Description::BaseAddressOutputActivation => if a.outputs.contains_key(f.name) {
            a.outputs[f.name]
        } else {
            0
        },
        Description::BaseAddressScratch => 0,
        Description::Other(_) => 0,
    }
}

/// The 32 bits that belong into a field.
pub open spec fn field_value(f: OffsetView, a: Addresses) -> u32 {
    address_half(base_address(f, a), f.position == Position::Upper32Bit)
}

/// Whether bit `p` lies in the field `f`.
pub open spec fn covers(f: OffsetView, p: int) -> bool {
    f.offset_bit <= p < f.offset_bit + 32
}

/// Bit `p` of a patched bitstream: the last field that covers it decides, and a
/// bit that no field covers keeps its value.
pub open spec fn patched_bit(
    bitstream: Seq<u8>,
    fields: Seq<OffsetView>,
    a: Addresses,
    p: int,
) -> bool
    decreases fields.len(),
{
    if fields.len() == 0 {
        bit_at(bitstream, p)
    } else if covers(fields.last(), p) {
        word_bit(field_value(fields.last(), a), p - fields.last().offset_bit)
    } else {
        patched_bit(bitstream, fields.drop_last(), a, p)
    }
}

/// `r` is the bitstream of `chunk` with all its fields patched.
pub open spec fn is_patched(chunk: ChunkView, a: Addresses, r: Seq<u8>) -> bool {
    &&& r.len() == chunk.bitstream.len()
    &&& forall|p: int|
        0 <= p < 8 * r.len() ==> #[trigger] bit_at(r, p) == patched_bit(
            chunk.bitstream,
            chunk.field_offsets,
            a,
            p,
        )
}

/// All fields of a chunk lie within its bitstream.
pub open spec fn fields_fit(chunk: ChunkView) -> bool {
    forall|i: int|
        0 <= i < chunk.field_offsets.len() ==> 0 <= (#[trigger] chunk.field_offsets[i]).offset_bit
            && chunk.field_offsets[i].offset_bit + 32 <= 8 * chunk.bitstream.len()
}

/// Whether all fields of a chunk lie within its bitstream.
pub fn check_fields(chunk: &ChunkInfo) -> (r: bool)
    ensures
        r == fields_fit(chunk@),
{
    let ghost fields = chunk@.field_offsets;
    let mut i: usize = 0;
    while i < chunk.field_offsets.len()
        invariant
            i <= chunk.field_offsets@.len(),
            fields == chunk@.field_offsets,
            forall|k: int|
                0 <= k < i ==> 0 <= (#[trigger] fields[k]).offset_bit && fields[k].offset_bit + 32
                    <= 8 * chunk.bitstream@.len(),
        decreases chunk.field_offsets@.len() - i,
    {
        assert(fields[i as int] == chunk.field_offsets@[i as int]@);
        let offset: i32 = chunk.field_offsets[i].offset_bit;
        let len: u128 = chunk.bitstream.len() as u128;
        if offset < 0 || offset as u128 + 32 > 8 * len {
            return false;
        }
        i = i + 1;
    }
    true
}

/// The instruction bitstream of `chunk` with the given base addresses in its
/// fields.
pub fn patch_chunk(
    chunk: &ChunkInfo,
    params_addr: u64,
    input_addr: u64,
    output_addrs: &StringHashMap<u64>,
) -> (r: Vec<u8>)
    requires
        fields_fit(chunk@),
    ensures
        is_patched(
            chunk@,
            (Addresses { params: params_addr, input: input_addr, outputs: output_addrs@ }),
            r@,
        ),
{
    let ghost a = Addresses { params: params_addr, input: input_addr, outputs: output_addrs@ };
    let ghost fields = chunk@.field_offsets;
    let ghost bitstream = chunk.bitstream@;
    let mut instr: Vec<u8> = chunk.bitstream.clone();
    assert(instr@ =~= bitstream);
    assert(fields.take(0) =~= Seq::empty());
    let mut i: usize = 0;
    while i < chunk.field_offsets.len()
        invariant
            i <= chunk.field_offsets@.len(),
            fields == chunk@.field_offsets,
            bitstream == chunk.bitstream@,
            fields_fit(chunk@),
            a == (Addresses { params: params_addr, input: input_addr, outputs: output_addrs@ }),
            instr@.len() == bitstream.len(),
            forall|p: int|
                0 <= p < 8 * bitstream.len() ==> #[trigger] bit_at(instr@, p) == patched_bit(
                    bitstream,
                    fields.take(i as int),
                    a,
                    p,
                ),
        decreases chunk.field_offsets@.len() - i,
    {
        assert(fields[i as int] == chunk.field_offsets@[i as int]@);
        assert(fields.take(i + 1).drop_last() =~= fields.take(i as int));
        let fo: &OffsetInfo = &chunk.field_offsets[i];
        let base_addr: u64 = match fo.desc {
            Description::BaseAddressParameter => params_addr,
            Description::BaseAddressInputActivation => input_addr,
            Description::BaseAddressOutputActivation => match output_addrs.get(fo.name.as_str()) {
                Some(addr) => *addr,
                None => 0,
            },
            Description::BaseAddressScratch => 0,
            Description::Other(_) => 0,
        };
        let position: u8 = if fo.position == Position::Upper32Bit {
            1
        } else {
            0
        };
        patch_field(instr.as_mut_slice(), fo.offset_bit as usize, position, base_addr);
        i = i + 1;
    }
    assert(fields.take(i as int) =~= fields);
    instr
}

/// No field covers bit `p`.
pub open spec fn uncovered(fields: Seq<OffsetView>, p: int) -> bool {
    forall|i: int| 0 <= i < fields.len() ==> !covers(#[trigger] fields[i], p)
}

/// A byte is determined by its eight bits.
proof fn lemma_byte_from_bits(a: u8, b: u8)
    requires
        forall|k: int| 0 <= k < 8 ==> #[trigger] byte_bit(a, k) == byte_bit(b, k),
    ensures
        a == b,
{
    assert(byte_bit(a, 0) == byte_bit(b, 0));
    assert(byte_bit(a, 1) == byte_bit(b, 1));
    assert(byte_bit(a, 2) == byte_bit(b, 2));
    assert(byte_bit(a, 3) == byte_bit(b, 3));
    assert(byte_bit(a, 4) == byte_bit(b, 4));
    assert(byte_bit(a, 5) == byte_bit(b, 5));
    assert(byte_bit(a, 6) == byte_bit(b, 6));
    assert(byte_bit(a, 7) == byte_bit(b, 7));
    assert(a == b) by (bit_vector)
        requires
            ((a >> 0u8) & 1 == 1) == ((b >> 0u8) & 1 == 1),
            ((a >> 1u8) & 1 == 1) == ((b >> 1u8) & 1 == 1),
            ((a >> 2u8) & 1 == 1) == ((b >> 2u8) & 1 == 1),
            ((a >> 3u8) & 1 == 1) == ((b >> 3u8) & 1 == 1),
            ((a >> 4u8) & 1 == 1) == ((b >> 4u8) & 1 == 1),
            ((a >> 5u8) & 1 == 1) == ((b >> 5u8) & 1 == 1),
            ((a >> 6u8) & 1 == 1) == ((b >> 6u8) & 1 == 1),
            ((a >> 7u8) & 1 == 1) == ((b >> 7u8) & 1 == 1),
    ;
}

/// Two bitstreams of the same length with the same bits are equal.
pub proof fn law_bits_determine_bytes(a: Seq<u8>, b: Seq<u8>)
    requires
        a.len() == b.len(),
        forall|p: int| 0 <= p < 8 * a.len() ==> #[trigger] bit_at(a, p) == bit_at(b, p),
    ensures
        a == b,
{
    assert forall|i: int| 0 <= i < a.len() implies a[i] == b[i] by {
        assert forall|k: int| 0 <= k < 8 implies #[trigger] byte_bit(a[i], k) == byte_bit(
            b[i],
            k,
        ) by {
            let p = 8 * i + k;
            assert(p / 8 == i && p % 8 == k);
            assert(bit_at(a, p) == bit_at(b, p));
        }
        lemma_byte_from_bits(a[i], b[i]);
    }
    assert(a =~= b);
}

/// A chunk and its addresses determine the patched bitstream.
pub proof fn law_patch_is_unique(chunk: ChunkView, a: Addresses, r: Seq<u8>, s: Seq<u8>)
    requires
        is_patched(chunk, a, r),
        is_patched(chunk, a, s),
    ensures
        r == s,
{
    assert forall|p: int| 0 <= p < 8 * r.len() implies #[trigger] bit_at(r, p) == bit_at(s, p) by {
        assert(bit_at(r, p) == patched_bit(chunk.bitstream, chunk.field_offsets, a, p));
        assert(bit_at(s, p) == patched_bit(chunk.bitstream, chunk.field_offsets, a, p));
    }
    law_bits_determine_bytes(r, s);
}

/// Two bitstreams that agree where no field lies agree everywhere once patched.
proof fn lemma_patched_bit_agrees(
    x: Seq<u8>,
    y: Seq<u8>,
    fields: Seq<OffsetView>,
    a: Addresses,
    p: int,
)
    requires
        uncovered(fields, p) ==> bit_at(x, p) == bit_at(y, p),
    ensures
        patched_bit(x, fields, a, p) == patched_bit(y, fields, a, p),
    decreases fields.len(),
{
    if fields.len() > 0 && !covers(fields.last(), p) {
        let before = fields.drop_last();
        if uncovered(before, p) {
            assert forall|i: int| 0 <= i < fields.len() implies !covers(#[trigger] fields[i], p) by {
                if i < before.len() {
                    assert(before[i] == fields[i]);
                }
            }
        }
        lemma_patched_bit_agrees(x, y, before, a, p);
    }
}

/// Patching changes no bit outside the fields.
pub proof fn law_uncovered_bits_kept(chunk: ChunkView, a: Addresses, r: Seq<u8>, p: int)
    requires
        is_patched(chunk, a, r),
        0 <= p < 8 * r.len(),
        uncovered(chunk.field_offsets, p),
    ensures
        bit_at(r, p) == bit_at(chunk.bitstream, p),
{
    lemma_uncovered_bit(chunk.bitstream, chunk.field_offsets, a, p);
    assert(bit_at(r, p) == patched_bit(chunk.bitstream, chunk.field_offsets, a, p));
}

/// A bit that no field covers keeps its value.
proof fn lemma_uncovered_bit(x: Seq<u8>, fields: Seq<OffsetView>, a: Addresses, p: int)
    requires
        uncovered(fields, p),
    ensures
        patched_bit(x, fields, a, p) == bit_at(x, p),
    decreases fields.len(),
{
    if fields.len() > 0 {
        let before = fields.drop_last();
        assert forall|i: int| 0 <= i < before.len() implies !covers(#[trigger] before[i], p) by {
            assert(before[i] == fields[i]);
        }
        assert(!covers(fields[fields.len() - 1], p));
        lemma_uncovered_bit(x, before, a, p);
    }
}

/// The two fields share no bit.
pub open spec fn disjoint(f: OffsetView, g: OffsetView) -> bool {
    f.offset_bit + 32 <= g.offset_bit || g.offset_bit + 32 <= f.offset_bit
}

/// Bit `p` within a field that no later field covers there.
proof fn lemma_field_bit(x: Seq<u8>, fields: Seq<OffsetView>, a: Addresses, i: int, p: int)
    requires
        0 <= i < fields.len(),
        covers(fields[i], p),
        forall|j: int| i < j < fields.len() ==> !covers(#[trigger] fields[j], p),
    ensures
        patched_bit(x, fields, a, p) == word_bit(
            field_value(fields[i], a),
            p - fields[i].offset_bit,
        ),
    decreases fields.len(),
{
    if i < fields.len() - 1 {
        let before = fields.drop_last();
        assert(!covers(fields[fields.len() - 1], p));
        assert(before[i] == fields[i]);
        assert forall|j: int| i < j < before.len() implies !covers(#[trigger] before[j], p) by {
            assert(before[j] == fields[j]);
        }
        lemma_field_bit(x, before, a, i, p);
    }
}

/// A field that no later field overlaps holds its half of its base address.
pub proof fn law_field_holds_address(chunk: ChunkView, a: Addresses, r: Seq<u8>, i: int)
    requires
        is_patched(chunk, a, r),
        fields_fit(chunk),
        0 <= i < chunk.field_offsets.len(),
        forall|j: int|
            i < j < chunk.field_offsets.len() ==> disjoint(
                chunk.field_offsets[i],
                #[trigger] chunk.field_offsets[j],
            ),
    ensures
        forall|k: int|
            0 <= k < 32 ==> #[trigger] bit_at(r, chunk.field_offsets[i].offset_bit + k) == word_bit(
                field_value(chunk.field_offsets[i], a),
                k,
            ),
{
    let f = chunk.field_offsets[i];
    assert forall|k: int| 0 <= k < 32 implies #[trigger] bit_at(r, f.offset_bit + k) == word_bit(
        field_value(f, a),
        k,
    ) by {
        lemma_field_bit(chunk.bitstream, chunk.field_offsets, a, i, f.offset_bit + k);
        assert(bit_at(r, f.offset_bit + k) == patched_bit(
            chunk.bitstream,
            chunk.field_offsets,
            a,
            f.offset_bit + k,
        ));
    }
}

/// The two halves of an address, lower half first, hold all its 64 bits.
pub proof fn law_halves_hold_address(addr: u64, i: int)
    requires
        0 <= i < 64,
    ensures
        address_bit(addr, i) == if i < 32 {
            word_bit(address_half(addr, false), i)
        } else {
            word_bit(address_half(addr, true), i - 32)
        },
{
    let lo: u32 = address_half(addr, false);
    let hi: u32 = address_half(addr, true);
    let n: u64 = i as u64;
    if i < 32 {
        let m: u32 = i as u32;
        assert((addr >> n) & 1 == ((addr % 0x1_0000_0000) as u32 >> m) & 1) by (bit_vector)
            requires
                n < 32,
                m == n,
        ;
    } else {
        let m: u32 = (i - 32) as u32;
        assert((addr >> n) & 1 == ((addr / 0x1_0000_0000) as u32 >> m) & 1) by (bit_vector)
            requires
                32 <= n < 64,
                m == n - 32,
        ;
    }
}

/// Two adjacent fields, patched with position 0 and with any other position,
/// together hold the address, and no other bit changes.
pub proof fn law_adjacent_fields_hold_address(
    buf: Seq<u8>,
    offset_bit: int,
    position: u8,
    addr: u64,
    mid: Seq<u8>,
    r: Seq<u8>,
)
    requires
        0 <= offset_bit,
        offset_bit + 64 <= 8 * buf.len(),
        position != 0,
        is_field_patch(buf, offset_bit, 0, addr, mid),
        is_field_patch(mid, offset_bit + 32, position, addr, r),
    ensures
        r.len() == buf.len(),
        forall|p: int|
            0 <= p < 8 * buf.len() ==> #[trigger] bit_at(r, p) == if offset_bit <= p < offset_bit
                + 64 {
                address_bit(addr, p - offset_bit)
            } else {
                bit_at(buf, p)
            },
{
    assert forall|p: int| 0 <= p < 8 * buf.len() implies #[trigger] bit_at(r, p)
        == if offset_bit <= p < offset_bit + 64 {
        address_bit(addr, p - offset_bit)
    } else {
        bit_at(buf, p)
    } by {
        assert(bit_at(mid, p) == bit_at(mid, p));
        if offset_bit <= p < offset_bit + 64 {
            law_halves_hold_address(addr, p - offset_bit);
        }
    }
}

/// The two halves of an address can be patched in either order, and all
/// positions other than 0 mean the same.
pub proof fn law_halves_commute(
    buf: Seq<u8>,
    offset_bit: int,
    position: u8,
    other_position: u8,
    addr: u64,
    lower_first: Seq<u8>,
    r: Seq<u8>,
    upper_first: Seq<u8>,
    s: Seq<u8>,
)
    requires
        0 <= offset_bit,
        offset_bit + 64 <= 8 * buf.len(),
        position != 0,
        other_position != 0,
        is_field_patch(buf, offset_bit, 0, addr, lower_first),
        is_field_patch(lower_first, offset_bit + 32, position, addr, r),
        is_field_patch(buf, offset_bit + 32, other_position, addr, upper_first),
        is_field_patch(upper_first, offset_bit, 0, addr, s),
    ensures
        r == s,
{
    assert forall|p: int| 0 <= p < 8 * r.len() implies #[trigger] bit_at(r, p) == bit_at(s, p) by {
        assert(bit_at(lower_first, p) == bit_at(lower_first, p));
        assert(bit_at(upper_first, p) == bit_at(upper_first, p));
    }
    law_bits_determine_bytes(r, s);
}

/// Patching a bitstream that was patched before gives what patching the
/// original gives: earlier addresses leave no trace.
pub proof fn law_repatching_forgets(
    chunk: ChunkView,
    a: Addresses,
    r: Seq<u8>,
    b: Addresses,
    s: Seq<u8>,
)
    requires
        is_patched(chunk, a, r),
        is_patched(ChunkView { bitstream: r, field_offsets: chunk.field_offsets }, b, s),
    ensures
        is_patched(chunk, b, s),
{
    assert forall|p: int| 0 <= p < 8 * s.len() implies #[trigger] bit_at(s, p) == patched_bit(
        chunk.bitstream,
        chunk.field_offsets,
        b,
        p,
    ) by {
        if uncovered(chunk.field_offsets, p) {
            law_uncovered_bits_kept(chunk, a, r, p);
        }
        lemma_patched_bit_agrees(r, chunk.bitstream, chunk.field_offsets, b, p);
    }
}

/// Bits are counted from the least significant one: bit `p` of a bitstream is
/// bit `p % 8` of its byte `p / 8`.
pub proof fn law_bit_order(buf: Seq<u8>, p: int, w: u32, i: int, addr: u64, j: int)
    requires
        0 <= p < 8 * buf.len(),
        0 <= i < 32,
        0 <= j < 64,
    ensures
        bit_at(buf, p) == ((buf[p / 8] >> ((p % 8) as u8)) & 1 == 1),
        word_bit(w, i) == ((w >> (i as u32)) & 1 == 1),
        address_bit(addr, j) == ((addr >> (j as u64)) & 1 == 1),
{
}

/// Every field that no later field overlaps holds half of the address that its
/// kind names: bit `k` of the field is bit `k` of the address, or bit `32 + k`
/// if the field is for the upper half. This holds for every kind of field.
pub proof fn law_every_field_holds_its_half(chunk: ChunkView, a: Addresses, r: Seq<u8>, i: int)
    requires
        is_patched(chunk, a, r),
        fields_fit(chunk),
        0 <= i < chunk.field_offsets.len(),
        forall|j: int|
            i < j < chunk.field_offsets.len() ==> chunk.field_offsets[i].offset_bit + 32 <= (
            #[trigger] chunk.field_offsets[j]).offset_bit || chunk.field_offsets[j].offset_bit + 32
                <= chunk.field_offsets[i].offset_bit,
    ensures
        ({
            let f = chunk.field_offsets[i];
            let addr: u64 = if f.desc is BaseAddressParameter {
                a.params
            } else if f.desc is BaseAddressInputActivation {
                a.input
            } else if f.desc is BaseAddressOutputActivation && a.outputs.contains_key(f.name) {
                a.outputs[f.name]
            } else {
                0
            };
            forall|k: int|
                0 <= k < 32 ==> #[trigger] bit_at(r, f.offset_bit + k) == address_bit(
                    addr,
                    if f.position is Upper32Bit {
                        32 + k
                    } else {
                        k
                    },
                )
        }),
{
    let f = chunk.field_offsets[i];
    let fields = chunk.field_offsets;
    let addr = base_address(f, a);
    assert forall|k: int| 0 <= k < 32 implies #[trigger] bit_at(r, f.offset_bit + k) == address_bit(
        addr,
        if f.position is Upper32Bit {
            32 + k
        } else {
            k
        },
    ) by {
        let p = f.offset_bit + k;
        assert(bit_at(r, p) == patched_bit(chunk.bitstream, fields, a, p));
        lemma_last_cover_decides(chunk.bitstream, fields, a, i, p);
        law_halves_hold_address(addr, k);
        law_halves_hold_address(addr, 32 + k);
    }
}

/// The last field that covers a bit decides it.
proof fn lemma_last_cover_decides(
    x: Seq<u8>,
    fields: Seq<OffsetView>,
    a: Addresses,
    i: int,
    p: int,
)
    requires
        0 <= i < fields.len(),
        covers(fields[i], p),
        forall|j: int| i < j < fields.len() ==> !covers(#[trigger] fields[j], p),
    ensures
        patched_bit(x, fields, a, p) == word_bit(
            field_value(fields[i], a),
            p - fields[i].offset_bit,
        ),
    decreases fields.len(),
{
    if i < fields.len() - 1 {
        let before = fields.drop_last();
        assert(!covers(fields[fields.len() - 1], p));
        assert forall|j: int| i < j < before.len() implies !covers(#[trigger] before[j], p) by {
            assert(before[j] == fields[j]);
        }
        lemma_last_cover_decides(x, before, a, i, p);
    }
}

/// A field for the lower and one for the upper half of the same buffer, neither
/// overlapped by a later field, together hold all 64 bits of the buffer's
/// address.
pub proof fn law_field_pair_holds_address(
    chunk: ChunkView,
    a: Addresses,
    r: Seq<u8>,
    low: int,
    high: int,
    addr: u64,
)
    requires
        is_patched(chunk, a, r),
        fields_fit(chunk),
        0 <= low < chunk.field_offsets.len(),
        0 <= high < chunk.field_offsets.len(),
        forall|j: int|
            low < j < chunk.field_offsets.len() ==> chunk.field_offsets[low].offset_bit + 32 <= (
            #[trigger] chunk.field_offsets[j]).offset_bit || chunk.field_offsets[j].offset_bit + 32
                <= chunk.field_offsets[low].offset_bit,
        forall|j: int|
            high < j < chunk.field_offsets.len() ==> chunk.field_offsets[high].offset_bit + 32 <= (
            #[trigger] chunk.field_offsets[j]).offset_bit || chunk.field_offsets[j].offset_bit + 32
                <= chunk.field_offsets[high].offset_bit,
        !(chunk.field_offsets[low].position is Upper32Bit),
        chunk.field_offsets[high].position is Upper32Bit,
        chunk.field_offsets[low].desc == chunk.field_offsets[high].desc,
        chunk.field_offsets[low].name == chunk.field_offsets[high].name,
        ({
            let f = chunk.field_offsets[low];
            ||| f.desc is BaseAddressParameter && addr == a.params
            ||| f.desc is BaseAddressInputActivation && addr == a.input
            ||| f.desc is BaseAddressOutputActivation && a.outputs.contains_key(f.name) && addr
                == a.outputs[f.name]
        }),
    ensures
        forall|k: int|
            0 <= k < 64 ==> #[trigger] address_bit(addr, k) == if k < 32 {
                bit_at(r, chunk.field_offsets[low].offset_bit + k)
            } else {
                bit_at(r, chunk.field_offsets[high].offset_bit + (k - 32))
            },
{
    law_every_field_holds_its_half(chunk, a, r, low);
    law_every_field_holds_its_half(chunk, a, r, high);
    assert forall|k: int| 0 <= k < 64 implies #[trigger] address_bit(addr, k) == if k < 32 {
        bit_at(r, chunk.field_offsets[low].offset_bit + k)
    } else {
        bit_at(r, chunk.field_offsets[high].offset_bit + (k - 32))
    } by {
        if k >= 32 {
            assert(bit_at(r, chunk.field_offsets[high].offset_bit + (k - 32)) == address_bit(
                addr,
                32 + (k - 32),
            ));
        }
    }
}

/// A patched bitstream is as long as the bitstream itself and agrees with it at
/// every bit that lies in none of the 32-bit fields.
pub proof fn law_bits_outside_fields_stay(chunk: ChunkView, a: Addresses, r: Seq<u8>, p: int)
    requires
        is_patched(chunk, a, r),
        0 <= p < 8 * chunk.bitstream.len(),
        forall|i: int|
            0 <= i < chunk.field_offsets.len() ==> p < (
            #[trigger] chunk.field_offsets[i]).offset_bit || p >= chunk.field_offsets[i].offset_bit
                + 32,
    ensures
        r.len() == chunk.bitstream.len(),
        bit_at(r, p) == bit_at(chunk.bitstream, p),
{
    law_uncovered_bits_kept(chunk, a, r, p);
}

/// A chunk is accepted exactly when every field lies within the bitstream.
pub proof fn law_fields_fit(chunk: ChunkView)
    ensures
        fields_fit(chunk) <==> forall|i: int, k: int|
            0 <= i < chunk.field_offsets.len() && 0 <= k < 32 ==> 0 <= #[trigger] (
            chunk.field_offsets[i].offset_bit + k) < 8 * chunk.bitstream.len(),
{
    let all = forall|i: int, k: int|
        0 <= i < chunk.field_offsets.len() && 0 <= k < 32 ==> 0 <= #[trigger] (
        chunk.field_offsets[i].offset_bit + k) < 8 * chunk.bitstream.len();
    if all {
        assert forall|i: int| 0 <= i < chunk.field_offsets.len() implies 0 <= (
        #[trigger] chunk.field_offsets[i]).offset_bit && chunk.field_offsets[i].offset_bit + 32 <= 8
            * chunk.bitstream.len() by {
            assert(0 <= chunk.field_offsets[i].offset_bit + 0);
            assert(chunk.field_offsets[i].offset_bit + 31 < 8 * chunk.bitstream.len());
        }
    }
}

/// Position 0 takes the lower and every other position the upper 32 bits.
pub proof fn law_field_patch_bits(
    before: Seq<u8>,
    offset_bit: int,
    position: u8,
    addr: u64,
    after: Seq<u8>,
    p: int,
)
    requires
        is_field_patch(before, offset_bit, position, addr, after),
        0 <= p < 8 * before.len(),
    ensures
        after.len() == before.len(),
        bit_at(after, p) == if offset_bit <= p < offset_bit + 32 {
            address_bit(
                addr,
                p - offset_bit + if position == 0 {
                    0int
                } else {
                    32
                },
            )
        } else {
            bit_at(before, p)
        },
{
    if offset_bit <= p < offset_bit + 32 {
        law_halves_hold_address(addr, p - offset_bit);
        law_halves_hold_address(addr, p - offset_bit + 32);
    }
}

} // verus!
