//! Little-endian integers in byte sequences.

use vstd::prelude::*;

verus! {

/// The number that a byte sequence holds, least significant byte first.
pub open spec fn le_nat(s: Seq<u8>) -> nat
    decreases s.len(),
{
    if s.len() == 0 {
        0
    } else {
        s[0] as nat + 256 * le_nat(s.drop_first())
    }
}

/// The value of a 16-bit pattern read as a two's complement number.
pub open spec fn as_signed16(n: nat) -> int {
    if n >= 0x8000 {
        n - 0x1_0000
    } else {
        n as int
    }
}

/// The value of two bytes.
pub proof fn lemma_le_nat_2(s: Seq<u8>)
    requires
        s.len() == 2,
    ensures
        le_nat(s) == s[0] + 256 * s[1],
{
    reveal_with_fuel(le_nat, 3);
}

/// The value of four bytes.
pub proof fn lemma_le_nat_4(s: Seq<u8>)
    requires
        s.len() == 4,
    ensures
        le_nat(s) == s[0] + 0x100 * s[1] + 0x1_0000 * s[2] + 0x100_0000 * s[3],
{
    reveal_with_fuel(le_nat, 5);
}

/// The value of eight bytes.
pub proof fn lemma_le_nat_8(s: Seq<u8>)
    requires
        s.len() == 8,
    ensures
        le_nat(s) == s[0] + 0x100 * s[1] + 0x1_0000 * s[2] + 0x100_0000 * s[3] + 0x1_0000_0000 * s[4]
            + 0x100_0000_0000 * s[5] + 0x1_0000_0000_0000 * s[6] + 0x100_0000_0000_0000 * s[7],
{
    reveal_with_fuel(le_nat, 9);
}

/// Every byte sequence holds a number below the corresponding power of 256.
pub proof fn lemma_le_nat_bound(s: Seq<u8>)
    ensures
        s.len() == 2 ==> le_nat(s) < 0x1_0000,
        s.len() == 4 ==> le_nat(s) < 0x1_0000_0000,
        s.len() == 8 ==> le_nat(s) < 0x1_0000_0000_0000_0000,
{
    if s.len() == 2 {
        lemma_le_nat_2(s);
    } else if s.len() == 4 {
        lemma_le_nat_4(s);
    } else if s.len() == 8 {
        lemma_le_nat_8(s);
    }
}

/// Two sequences of the same length that hold the same number are equal.
pub proof fn lemma_le_nat_injective(a: Seq<u8>, b: Seq<u8>)
    requires
        a.len() == b.len(),
        le_nat(a) == le_nat(b),
    ensures
        a == b,
    decreases a.len(),
{
    if a.len() > 0 {
        lemma_le_nat_injective(a.drop_first(), b.drop_first());
        assert(a =~= seq![a[0]] + a.drop_first());
        assert(b =~= seq![b[0]] + b.drop_first());
    } else {
        assert(a =~= b);
    }
}

/// Reads two bytes at `at`.
pub fn read_le16(b: &[u8], at: usize) -> (v: u16)
    requires
        at + 2 <= b@.len(),
    ensures
        v == le_nat(b@.subrange(at as int, at + 2)),
{
    proof {
        lemma_le_nat_2(b@.subrange(at as int, at + 2));
    }
    b[at] as u16 + 0x100 * (b[at + 1] as u16)
}

/// Reads two bytes at `at` as a two's complement number.
pub fn read_le16_signed(b: &[u8], at: usize) -> (v: i16)
    requires
        at + 2 <= b@.len(),
    ensures
        v == as_signed16(le_nat(b@.subrange(at as int, at + 2))),
{
    let u: i32 = read_le16(b, at) as i32;
    if u >= 0x8000 {
        (u - 0x1_0000) as i16
    } else {
        u as i16
    }
}

/// Reads four bytes at `at`.
pub fn read_le32(b: &[u8], at: usize) -> (v: u32)
    requires
        at + 4 <= b@.len(),
    ensures
        v == le_nat(b@.subrange(at as int, at + 4)),
{
    proof {
        lemma_le_nat_4(b@.subrange(at as int, at + 4));
    }
    b[at] as u32 + 0x100 * (b[at + 1] as u32) + 0x1_0000 * (b[at + 2] as u32) + 0x100_0000 * (b[at
        + 3] as u32)
}

/// Reads eight bytes at `at`.
pub fn read_le64(b: &[u8], at: usize) -> (v: u64)
    requires
        at + 8 <= b@.len(),
    ensures
        v == le_nat(b@.subrange(at as int, at + 8)),
{
    assert(b.len() == b@.len());
    let lo: u64 = read_le32(b, at) as u64;
    let hi: u64 = read_le32(b, at + 4) as u64;
    proof {
        lemma_le_nat_4(b@.subrange(at as int, at + 4));
        lemma_le_nat_4(b@.subrange(at + 4, at + 8));
        lemma_le_nat_8(b@.subrange(at as int, at + 8));
    }
    lo + 0x1_0000_0000 * hi
}

/// The four bytes of `v`, least significant first.
pub fn le32_bytes(v: u32) -> (r: Vec<u8>)
    ensures
        r@.len() == 4,
        le_nat(r@) == v,
{
    let mut r: Vec<u8> = Vec::new();
    r.push((v % 0x100) as u8);
    r.push(((v / 0x100) % 0x100) as u8);
    r.push(((v / 0x1_0000) % 0x100) as u8);
    r.push((v / 0x100_0000) as u8);
    proof {
        lemma_le_nat_4(r@);
    }
    r
}

/// The eight bytes of `v`, least significant first.
pub fn le64_bytes(v: u64) -> (r: Vec<u8>)
    ensures
        r@.len() == 8,
        le_nat(r@) == v,
{
    let mut lo: Vec<u8> = le32_bytes((v % 0x1_0000_0000) as u32);
    let mut hi: Vec<u8> = le32_bytes((v / 0x1_0000_0000) as u32);
    proof {
        lemma_le_nat_4(lo@);
        lemma_le_nat_4(hi@);
        lemma_le_nat_8(lo@ + hi@);
    }
    lo.append(&mut hi);
    lo
}

} // verus!
