//! Decoder and disassembler for Edge TPU instruction streams.
//!
//! A stream is a sequence of 16-byte words. The first word carries the stream
//! size, the fourth is the start sentinel and the last is the halt word.

use vstd::prelude::*;

use crate::bytes::{
    as_signed16, le_nat, lemma_le_nat_2, lemma_le_nat_8, lemma_le_nat_bound, read_le16,
    read_le16_signed, read_le64,
};

verus! {

/// Why a stream could not be parsed.
#[derive(Debug)]
pub enum ParseError {
    /// The stream could not be read; holds the message of the I/O error.
    Io(String),
    /// The stream is shorter than one word or does not start with `0x80`.
    InvalidHeader,
    /// The length of the stream differs from what its header announces.
    InvalidSize { expected: usize, got: usize },
    /// The fourth word is not the start sentinel.
    MissingStartWord,
    /// The last word is not the halt word.
    MissingHaltWord,
}

/// Target register of a `Movi` instruction.
#[derive(Debug, Clone, Copy, PartialEq, Eq, Structural)]
pub enum Register {
    ParamLo,
    ParamHi,
    ScratchLo,
    ScratchHi,
    ActHi,
    ActLo,
    ClearHi,
    ClearLo,
}

/// Which transfer a `DmaSize` instruction describes.
#[derive(Debug, Clone, Copy, PartialEq, Eq, Structural)]
pub enum DmaKind {
    Infeed,
    Generic,
}

/// Output shape selected by a `MacCtrl` instruction.
#[derive(Debug, Clone, Copy, PartialEq, Eq, Structural)]
pub enum OutputSkeleton {
    Single,
    Vector,
}

/// One decoded word.
#[derive(Debug, Clone, Copy)]
pub enum Instruction {
    Header { n_words: u16 },
    Movi { reg: Register, imm32: u32 },
    DmaSize { kind: DmaKind, bytes: u32 },
    Fence { seq: u8 },
    FencePair,
    TileConfig { multi_tile: bool },
    MacCtrl { skeleton: OutputSkeleton },
    /// Stride-carrying MAC configuration: four 16-bit slots in the upper half of
    /// its own word and four in the lower half of the next word.
    MacConfig { slots: [i16; 8], input_dim: u32 },
    StartSentinel,
    Halt,
    Unknown { raw: [u8; 16] },
}

/// A parsed stream: its words and, at the same index, what each decodes to.
pub struct Program {
    pub words: Vec<[u8; 16]>,
    pub instructions: Vec<Instruction>,
}

/// The parameters of the compiled model that can be read off its instructions.
#[derive(Debug, Clone, Copy, PartialEq, Eq, Structural)]
pub struct ModelParams {
    pub input_dim: u32,
    pub dma_input_bytes: u32,
    pub output_skeleton: OutputSkeleton,
}

/// Mathematical view of [`Instruction`], with arrays as sequences.
pub enum InstructionView {
    Header { n_words: u16 },
    Movi { reg: Register, imm32: u32 },
    DmaSize { kind: DmaKind, bytes: u32 },
    Fence { seq: u8 },
    FencePair,
    TileConfig { multi_tile: bool },
    MacCtrl { skeleton: OutputSkeleton },
    MacConfig { slots: Seq<i16>, input_dim: u32 },
    StartSentinel,
    Halt,
    Unknown { raw: Seq<u8> },
}

impl View for Instruction {
    type V = InstructionView;

    open spec fn view(&self) -> InstructionView {
        match *self {
            Instruction::Header { n_words } => InstructionView::Header { n_words },
            Instruction::Movi { reg, imm32 } => InstructionView::Movi { reg, imm32 },
            Instruction::DmaSize { kind, bytes } => InstructionView::DmaSize { kind, bytes },
            Instruction::Fence { seq } => InstructionView::Fence { seq },
            Instruction::FencePair => InstructionView::FencePair,
            Instruction::TileConfig { multi_tile } => InstructionView::TileConfig { multi_tile },
            Instruction::MacCtrl { skeleton } => InstructionView::MacCtrl { skeleton },
            Instruction::MacConfig { slots, input_dim } => InstructionView::MacConfig {
                slots: slots@,
                input_dim,
            },
            Instruction::StartSentinel => InstructionView::StartSentinel,
            Instruction::Halt => InstructionView::Halt,
            Instruction::Unknown { raw } => InstructionView::Unknown { raw: raw@ },
        }
    }
}

/// The start sentinel.
pub open spec fn start_word() -> Seq<u8> {
    seq![0, 0, 0, 0, 0, 0, 0, 0, 0, 0, 0, 0, 0, 0, 0xC0, 0x07]
}

/// The halt word.
pub open spec fn halt_word() -> Seq<u8> {
    seq![0xC0, 0x0F, 0, 0x04, 0, 0, 0, 0, 0, 0, 0, 0, 0, 0, 0, 0]
}

/// A word of sixteen zero bytes.
pub open spec fn zero_word() -> Seq<u8> {
    seq![0, 0, 0, 0, 0, 0, 0, 0, 0, 0, 0, 0, 0, 0, 0, 0]
}

/// The register that a byte selects.
pub open spec fn register_of(b: u8) -> Option<Register> {
    if b == 0x1b {
        Some(Register::ParamLo)
    } else if b == 0x0b {
        Some(Register::ParamHi)
    } else if b == 0x3b {
        Some(Register::ScratchLo)
    } else if b == 0x2b {
        Some(Register::ScratchHi)
    } else if b == 0xab {
        Some(Register::ActHi)
    } else if b == 0xbb {
        Some(Register::ActLo)
    } else if b == 0x4b {
        Some(Register::ClearHi)
    } else if b == 0x5b {
        Some(Register::ClearLo)
    } else {
        None
    }
}

/// The 32-bit immediate of a word: the 32 bits from bit 70 on.
pub open spec fn immediate(w: Seq<u8>) -> u32 {
    ((le_nat(w.subrange(8, 16)) / 64) % 0x1_0000_0000) as u32
}

/// The eight MAC slots that the word `w` and its successor `next` hold.
pub open spec fn mac_slots(w: Seq<u8>, next: Seq<u8>) -> Seq<i16> {
    Seq::new(
        8,
        |i: int|
            if i < 4 {
                as_signed16(le_nat(w.subrange(8 + 2 * i, 10 + 2 * i))) as i16
            } else {
                as_signed16(le_nat(next.subrange(2 * (i - 4), 2 * (i - 4) + 2))) as i16
            },
    )
}

/// The input dimension that the sixth MAC slot encodes, modulo 2^32.
pub open spec fn mac_input_dim(slot: i16) -> u32 {
    ((4 * (1 - slot)) % 0x1_0000_0000) as u32
}

/// What the word `w` at position `index` decodes to when `next` follows it.
pub open spec fn decoded(index: int, w: Seq<u8>, next: Seq<u8>) -> InstructionView {
    if w == start_word() {
        InstructionView::StartSentinel
    } else if w == halt_word() {
        InstructionView::Halt
    } else if w[0] == 0x80 && w[1] == 0x0f {
        InstructionView::Header { n_words: (le_nat(w.subrange(3, 5)) / 4 + 2) as u16 }
    } else if w[0] == 0x80 && w[1] == 0xf6 {
        InstructionView::Fence { seq: w[3] }
    } else if w[0] == 0 && w[1] == 0xf9 {
        InstructionView::FencePair
    } else if w[0] == 0x40 && w[1] == 0x19 {
        InstructionView::TileConfig { multi_tile: w[4] != 0 }
    } else if w[0] == 0x40 && w[1] == 0x10 {
        InstructionView::MacCtrl { skeleton: OutputSkeleton::Single }
    } else if w[0] == 0 && w[1] == 0x15 {
        InstructionView::MacCtrl { skeleton: OutputSkeleton::Vector }
    } else if w[1] == 0x14 && w[10] == 0 && w[11] == 0x80 {
        InstructionView::MacConfig {
            slots: mac_slots(w, next),
            input_dim: mac_input_dim(mac_slots(w, next)[5]),
        }
    } else if w[1] == 0x08 && w[6] == 0xc0 {
        InstructionView::Movi {
            reg: match register_of(w[7]) {
                Some(reg) => reg,
                None => Register::ParamLo,
            },
            imm32: immediate(w),
        }
    } else if w[1] == 0x08 {
        InstructionView::DmaSize {
            kind: if index == 27 {
                DmaKind::Infeed
            } else {
                DmaKind::Generic
            },
            bytes: immediate(w),
        }
    } else {
        InstructionView::Unknown { raw: w }
    }
}

impl Register {
    /// The register that `b` selects.
    pub fn from_byte(b: u8) -> (r: Option<Register>)
        ensures
            r == register_of(b),
    {
        match b {
            0x1b => Some(Register::ParamLo),
            0x0b => Some(Register::ParamHi),
            0x3b => Some(Register::ScratchLo),
            0x2b => Some(Register::ScratchHi),
            0xab => Some(Register::ActHi),
            0xbb => Some(Register::ActLo),
            0x4b => Some(Register::ClearHi),
            0x5b => Some(Register::ClearLo),
            _ => None,
        }
    }
}

/// Whether a word equals the start sentinel.
fn is_start_word(w: &[u8; 16]) -> (r: bool)
    ensures
        r == (w@ == start_word()),
{
    let r = w[0] == 0 && w[1] == 0 && w[2] == 0 && w[3] == 0 && w[4] == 0 && w[5] == 0 && w[6] == 0
        && w[7] == 0 && w[8] == 0 && w[9] == 0 && w[10] == 0 && w[11] == 0 && w[12] == 0 && w[13]
        == 0 && w[14] == 0xC0 && w[15] == 0x07;
    proof {
        if r {
            assert(w@ =~= start_word());
        }
    }
    r
}

/// Whether a word equals the halt word.
fn is_halt_word(w: &[u8; 16]) -> (r: bool)
    ensures
        r == (w@ == halt_word()),
{
    let r = w[0] == 0xC0 && w[1] == 0x0F && w[2] == 0 && w[3] == 0x04 && w[4] == 0 && w[5] == 0
        && w[6] == 0 && w[7] == 0 && w[8] == 0 && w[9] == 0 && w[10] == 0 && w[11] == 0 && w[12]
        == 0 && w[13] == 0 && w[14] == 0 && w[15] == 0;
    proof {
        if r {
            assert(w@ =~= halt_word());
        }
    }
    r
}

/// The upper eight bytes of a word as a number.
pub fn word_hi64(w: &[u8; 16]) -> (v: u64)
    ensures
        v == le_nat(w@.subrange(8, 16)),
{
    read_le64(w, 8)
}

/// Decodes a stride-carrying MAC configuration from its own word and the next.
pub fn decode_mac_config(w: &[u8; 16], next: &[u8; 16]) -> (r: Instruction)
    ensures
        r@ == (InstructionView::MacConfig {
            slots: mac_slots(w@, next@),
            input_dim: mac_input_dim(mac_slots(w@, next@)[5]),
        }),
{
    let slots: [i16; 8] = [
        read_le16_signed(w, 8),
        read_le16_signed(w, 10),
        read_le16_signed(w, 12),
        read_le16_signed(w, 14),
        read_le16_signed(next, 0),
        read_le16_signed(next, 2),
        read_le16_signed(next, 4),
        read_le16_signed(next, 6),
    ];
    assert(slots@ =~= mac_slots(w@, next@));
    let dim: i32 = (-(slots[5] as i32) + 1) * 4;
    let input_dim: u32 = if dim >= 0 {
        dim as u32
    } else {
        (dim as i64 + 0x1_0000_0000) as u32
    };
    Instruction::MacConfig { slots, input_dim }
}

/// Decodes the word `w` at position `word_index`; `next` is the word after it,
/// if there is one. A missing successor counts as zeros.
pub fn decode_word(word_index: usize, w: &[u8; 16], next: Option<&[u8; 16]>) -> (r: Instruction)
    ensures
        r@ == decoded(
            word_index as int,
            w@,
            match next {
                Some(n) => n@,
                None => zero_word(),
            },
        ),
{
    if is_start_word(w) {
        return Instruction::StartSentinel;
    }
    if is_halt_word(w) {
        return Instruction::Halt;
    }
    match (w[0], w[1]) {
        (0x80, 0x0f) => {
            let size: u32 = read_le16(w, 3) as u32;
            let n_words: u16 = (size / 4 + 2) as u16;
            Instruction::Header { n_words }
        },
        (0x80, 0xf6) => Instruction::Fence { seq: w[3] },
        (0x00, 0xf9) => Instruction::FencePair,
        (0x40, 0x19) => Instruction::TileConfig { multi_tile: w[4] != 0 },
        (0x40, 0x10) => Instruction::MacCtrl { skeleton: OutputSkeleton::Single },
        (0x00, 0x15) => Instruction::MacCtrl { skeleton: OutputSkeleton::Vector },
        (_, 0x14) if w[10] == 0x00 && w[11] == 0x80 => {
            match next {
                Some(n) => decode_mac_config(w, n),
                None => {
                    let zeros: [u8; 16] = [0, 0, 0, 0, 0, 0, 0, 0, 0, 0, 0, 0, 0, 0, 0, 0];
                    assert(zeros@ =~= zero_word());
                    decode_mac_config(w, &zeros)
                },
            }
        },
        (_, 0x08) => {
            let hi: u64 = word_hi64(w);
            assert((hi >> 6) & 0xFFFF_FFFF == (hi / 64) % 0x1_0000_0000) by (bit_vector);
            let val: u32 = ((hi >> 6) & 0xFFFF_FFFF) as u32;
            if w[6] == 0xc0 {
                let reg = match Register::from_byte(w[7]) {
                    Some(reg) => reg,
                    None => Register::ParamLo,
                };
                Instruction::Movi { reg, imm32: val }
            } else {
                let kind = if word_index == 27 {
                    DmaKind::Infeed
                } else {
                    DmaKind::Generic
                };
                Instruction::DmaSize { kind, bytes: val }
            }
        },
        _ => Instruction::Unknown { raw: *w },
    }
}

/// The words of a program as byte sequences.
pub open spec fn word_views(words: Seq<[u8; 16]>) -> Seq<Seq<u8>> {
    words.map_values(|w: [u8; 16]| w@)
}

/// The instructions of a program as mathematical values.
pub open spec fn instruction_views(instructions: Seq<Instruction>) -> Seq<InstructionView> {
    instructions.map_values(|i: Instruction| i@)
}

/// The size field of a stream header.
pub open spec fn payload_size(data: Seq<u8>) -> nat {
    le_nat(data.subrange(3, 5))
}

/// The length in bytes that the header announces.
pub open spec fn announced_len(data: Seq<u8>) -> nat {
    payload_size(data) * 4 + 32
}

/// The number of words that the header announces.
pub open spec fn announced_words(data: Seq<u8>) -> nat {
    payload_size(data) / 4 + 2
}

/// The `i`-th 16-byte word of a stream.
pub open spec fn word_at(data: Seq<u8>, i: int) -> Seq<u8> {
    data.subrange(16 * i, 16 * i + 16)
}

/// The word after the `i`-th one, or zeros behind the last word.
pub open spec fn word_after(data: Seq<u8>, i: int) -> Seq<u8> {
    if i + 1 < announced_words(data) {
        word_at(data, i + 1)
    } else {
        zero_word()
    }
}

/// The stream is at least one word long and starts with `0x80`.
pub open spec fn has_header(data: Seq<u8>) -> bool {
    data.len() >= 16 && data[0] == 0x80
}

/// The fourth word is the start sentinel.
pub open spec fn has_start(data: Seq<u8>) -> bool {
    announced_words(data) > 3 && word_at(data, 3) == start_word()
}

/// The last word is the halt word.
pub open spec fn has_halt(data: Seq<u8>) -> bool {
    word_at(data, announced_words(data) - 1) == halt_word()
}

/// A stream that parses.
pub open spec fn is_stream(data: Seq<u8>) -> bool {
    &&& has_header(data)
    &&& data.len() == announced_len(data)
    &&& has_start(data)
    &&& has_halt(data)
}

/// All words of a stream.
pub open spec fn stream_words(data: Seq<u8>) -> Seq<Seq<u8>> {
    Seq::new(announced_words(data), |i: int| word_at(data, i))
}

/// What the words of a stream decode to.
pub open spec fn stream_instructions(data: Seq<u8>) -> Seq<InstructionView> {
    Seq::new(
        announced_words(data),
        |i: int| decoded(i, word_at(data, i), word_after(data, i)),
    )
}

/// What parsing a byte stream must give: each error exactly on its own inputs,
/// checked in the order header, size, start word, halt word.
pub open spec fn parse_agrees(data: Seq<u8>, r: Result<Program, ParseError>) -> bool {
    if !has_header(data) {
        r matches Err(ParseError::InvalidHeader)
    } else if data.len() != announced_len(data) {
        r matches Err(ParseError::InvalidSize { expected, got }) && expected == announced_len(data)
            && got == data.len()
    } else if !has_start(data) {
        r matches Err(ParseError::MissingStartWord)
    } else if !has_halt(data) {
        r matches Err(ParseError::MissingHaltWord)
    } else {
        &&& r matches Ok(p)
        &&& word_views(p.words@) == stream_words(data)
        &&& instruction_views(p.instructions@) == stream_instructions(data)
    }
}

/// Copies the 16-byte word that starts at byte `at`.
fn copy_word(data: &[u8], at: usize) -> (w: [u8; 16])
    requires
        at + 16 <= data@.len(),
    ensures
        w@ == data@.subrange(at as int, at + 16),
{
    assert(data.len() == data@.len());
    let w: [u8; 16] = [
        data[at],
        data[at + 1],
        data[at + 2],
        data[at + 3],
        data[at + 4],
        data[at + 5],
        data[at + 6],
        data[at + 7],
        data[at + 8],
        data[at + 9],
        data[at + 10],
        data[at + 11],
        data[at + 12],
        data[at + 13],
        data[at + 14],
        data[at + 15],
    ];
    assert(w@ =~= data@.subrange(at as int, at + 16));
    w
}

/// Parses a byte stream into words and instructions.
pub fn parse_words(data: &[u8]) -> (r: Result<Program, ParseError>)
    ensures
        parse_agrees(data@, r),
{
    if data.len() < 16 || data[0] != 0x80 {
        return Err(ParseError::InvalidHeader);
    }
    let size: usize = read_le16(data, 3) as usize;
    let expected_len: usize = size * 4 + 32;
    if expected_len != data.len() {
        return Err(ParseError::InvalidSize { expected: expected_len, got: data.len() });
    }
    let n_words: usize = size / 4 + 2;
    let mut words: Vec<[u8; 16]> = Vec::new();
    let mut i: usize = 0;
    while i < n_words
        invariant
            i <= n_words,
            n_words == announced_words(data@),
            data@.len() == announced_len(data@),
            size == payload_size(data@),
            size <= 0xFFFF,
            words@.len() == i,
            forall|k: int| 0 <= k < i ==> (#[trigger] words@[k])@ == word_at(data@, k),
        decreases n_words - i,
    {
        let w = copy_word(data, 16 * i);
        words.push(w);
        i = i + 1;
    }
    if words.len() <= 3 || !is_start_word(&words[3]) {
        return Err(ParseError::MissingStartWord);
    }
    if !is_halt_word(&words[n_words - 1]) {
        return Err(ParseError::MissingHaltWord);
    }
    let mut instructions: Vec<Instruction> = Vec::new();
    let mut j: usize = 0;
    while j < n_words
        invariant
            j <= n_words,
            n_words == announced_words(data@),
            n_words <= 0x8000,
            words@.len() == n_words,
            forall|k: int| 0 <= k < n_words ==> (#[trigger] words@[k])@ == word_at(data@, k),
            instructions@.len() == j,
            forall|k: int|
                0 <= k < j ==> (#[trigger] instructions@[k])@ == decoded(
                    k,
                    word_at(data@, k),
                    word_after(data@, k),
                ),
        decreases n_words - j,
    {
        let next: Option<&[u8; 16]> = if j + 1 < n_words {
            Some(&words[j + 1])
        } else {
            None
        };
        instructions.push(decode_word(j, &words[j], next));
        j = j + 1;
    }
    let program = Program { words, instructions };
    proof {
        assert(word_views(program.words@) =~= stream_words(data@));
        assert(instruction_views(program.instructions@) =~= stream_instructions(data@));
    }
    Ok(program)
}

/// Parses an instruction stream. `data` is the outcome of reading it: the
/// bytes, or the message of the I/O error that stopped the read.
pub fn parse_instructions(data: Result<Vec<u8>, String>) -> (r: Result<Program, ParseError>)
    ensures
        match data {
            Ok(bytes) => parse_agrees(bytes@, r),
            Err(message) => r == Err::<Program, ParseError>(ParseError::Io(message)),
        },
{
    match data {
        Ok(bytes) => parse_words(bytes.as_slice()),
        Err(message) => Err(ParseError::Io(message)),
    }
}

/// The size that an infeed `DmaSize` instruction carries.
pub open spec fn infeed_bytes(i: InstructionView) -> Option<u32> {
    match i {
        InstructionView::DmaSize { kind: DmaKind::Infeed, bytes } => Some(bytes),
        _ => None,
    }
}

/// The input dimension that a `MacConfig` instruction carries.
pub open spec fn config_dim(i: InstructionView) -> Option<u32> {
    match i {
        InstructionView::MacConfig { slots, input_dim } => Some(input_dim),
        _ => None,
    }
}

/// The skeleton that a `MacCtrl` instruction carries.
pub open spec fn ctrl_skeleton(i: InstructionView) -> Option<OutputSkeleton> {
    match i {
        InstructionView::MacCtrl { skeleton } => Some(skeleton),
        _ => None,
    }
}

/// The first value that `f` finds in `s`.
pub open spec fn first_some<T>(
    s: Seq<InstructionView>,
    f: spec_fn(InstructionView) -> Option<T>,
) -> Option<T>
    decreases s.len(),
{
    if s.len() == 0 {
        None
    } else if f(s[0]) is Some {
        f(s[0])
    } else {
        first_some(s.drop_first(), f)
    }
}

/// `first_some` is the value at `n` when nothing is found before `n` and
/// something is found there, and `None` when nothing is found at all.
proof fn lemma_first_some<T>(
    s: Seq<InstructionView>,
    f: spec_fn(InstructionView) -> Option<T>,
    n: int,
)
    requires
        0 <= n <= s.len(),
        forall|k: int| 0 <= k < n ==> f(#[trigger] s[k]) is None,
        n < s.len() ==> f(s[n]) is Some,
    ensures
        first_some(s, f) == if n < s.len() {
            f(s[n])
        } else {
            None
        },
    decreases s.len(),
{
    if s.len() > 0 && n > 0 {
        assert(f(s[0]) is None);
        assert forall|k: int| 0 <= k < n - 1 implies f(#[trigger] s.drop_first()[k]) is None by {
            assert(s.drop_first()[k] == s[k + 1]);
        }
        lemma_first_some(s.drop_first(), f, n - 1);
    }
}

/// What `first_some` finds, `f` finds somewhere in `s`.
proof fn lemma_first_some_found<T>(
    s: Seq<InstructionView>,
    f: spec_fn(InstructionView) -> Option<T>,
) -> (k: int)
    requires
        first_some(s, f) is Some,
    ensures
        0 <= k < s.len(),
        first_some(s, f) == f(s[k]),
    decreases s.len(),
{
    if f(s[0]) is Some {
        0
    } else {
        lemma_first_some_found(s.drop_first(), f) + 1
    }
}

/// The parameters that a list of instructions determines: the first infeed
/// size, the first MAC input dimension and the first MAC skeleton, if all of
/// them occur.
pub open spec fn params_of(s: Seq<InstructionView>) -> Option<ModelParams> {
    match (
        first_some(s, |i: InstructionView| infeed_bytes(i)),
        first_some(s, |i: InstructionView| config_dim(i)),
        first_some(s, |i: InstructionView| ctrl_skeleton(i)),
    ) {
        (Some(dma_input_bytes), Some(input_dim), Some(output_skeleton)) => Some(
            ModelParams { input_dim, dma_input_bytes, output_skeleton },
        ),
        _ => None,
    }
}

/// All `Movi` instructions of a list with their positions, in order.
pub open spec fn movis_of(s: Seq<InstructionView>) -> Seq<(usize, Register, u32)>
    decreases s.len(),
{
    if s.len() == 0 {
        Seq::empty()
    } else {
        let before = movis_of(s.drop_last());
        match s.last() {
            InstructionView::Movi { reg, imm32 } => before.push(
                ((s.len() - 1) as usize, reg, imm32),
            ),
            _ => before,
        }
    }
}

impl Program {
    /// The first infeed size in the program.
    fn find_infeed(&self) -> (r: Option<u32>)
        ensures
            r == first_some(
                instruction_views(self.instructions@),
                |i: InstructionView| infeed_bytes(i),
            ),
    {
        let ghost s = instruction_views(self.instructions@);
        let ghost f = |i: InstructionView| infeed_bytes(i);
        let mut i: usize = 0;
        while i < self.instructions.len()
            invariant
                i <= self.instructions@.len(),
                s == instruction_views(self.instructions@),
                f == (|i: InstructionView| infeed_bytes(i)),
                forall|k: int| 0 <= k < i ==> f(#[trigger] s[k]) is None,
            decreases self.instructions@.len() - i,
        {
            assert(s[i as int] == self.instructions@[i as int]@);
            if let Instruction::DmaSize { kind: DmaKind::Infeed, bytes } = self.instructions[i] {
                proof {
                    lemma_first_some(s, f, i as int);
                }
                return Some(bytes);
            }
            i = i + 1;
        }
        proof {
            lemma_first_some(s, f, i as int);
        }
        None
    }

    /// The first MAC input dimension in the program.
    fn find_input_dim(&self) -> (r: Option<u32>)
        ensures
            r == first_some(
                instruction_views(self.instructions@),
                |i: InstructionView| config_dim(i),
            ),
    {
        let ghost s = instruction_views(self.instructions@);
        let ghost f = |i: InstructionView| config_dim(i);
        let mut i: usize = 0;
        while i < self.instructions.len()
            invariant
                i <= self.instructions@.len(),
                s == instruction_views(self.instructions@),
                f == (|i: InstructionView| config_dim(i)),
                forall|k: int| 0 <= k < i ==> f(#[trigger] s[k]) is None,
            decreases self.instructions@.len() - i,
        {
            assert(s[i as int] == self.instructions@[i as int]@);
            if let Instruction::MacConfig { slots: _, input_dim } = self.instructions[i] {
                proof {
                    lemma_first_some(s, f, i as int);
                }
                return Some(input_dim);
            }
            i = i + 1;
        }
        proof {
            lemma_first_some(s, f, i as int);
        }
        None
    }

    /// The first MAC skeleton in the program.
    fn find_skeleton(&self) -> (r: Option<OutputSkeleton>)
        ensures
            r == first_some(
                instruction_views(self.instructions@),
                |i: InstructionView| ctrl_skeleton(i),
            ),
    {
        let ghost s = instruction_views(self.instructions@);
        let ghost f = |i: InstructionView| ctrl_skeleton(i);
        let mut i: usize = 0;
        while i < self.instructions.len()
            invariant
                i <= self.instructions@.len(),
                s == instruction_views(self.instructions@),
                f == (|i: InstructionView| ctrl_skeleton(i)),
                forall|k: int| 0 <= k < i ==> f(#[trigger] s[k]) is None,
            decreases self.instructions@.len() - i,
        {
            assert(s[i as int] == self.instructions@[i as int]@);
            if let Instruction::MacCtrl { skeleton } = self.instructions[i] {
                proof {
                    lemma_first_some(s, f, i as int);
                }
                return Some(skeleton);
            }
            i = i + 1;
        }
        proof {
            lemma_first_some(s, f, i as int);
        }
        None
    }

    /// The parameters that the program determines.
    pub fn extract_params(&self) -> (r: Option<ModelParams>)
        ensures
            r == params_of(instruction_views(self.instructions@)),
    {
        let dma_input_bytes = self.find_infeed()?;
        let input_dim = self.find_input_dim()?;
        let output_skeleton = self.find_skeleton()?;
        Some(ModelParams { input_dim, dma_input_bytes, output_skeleton })
    }

    /// All `Movi` instructions with their word index.
    pub fn movi_instructions(&self) -> (r: Vec<(usize, Register, u32)>)
        ensures
            r@ == movis_of(instruction_views(self.instructions@)),
    {
        let ghost s = instruction_views(self.instructions@);
        let mut r: Vec<(usize, Register, u32)> = Vec::new();
        let mut i: usize = 0;
        assert(s.take(0) =~= Seq::empty());
        while i < self.instructions.len()
            invariant
                i <= self.instructions@.len(),
                s == instruction_views(self.instructions@),
                r@ == movis_of(s.take(i as int)),
            decreases self.instructions@.len() - i,
        {
            assert(s.take(i + 1).drop_last() =~= s.take(i as int));
            assert(s.take(i + 1).last() == self.instructions@[i as int]@);
            if let Instruction::Movi { reg, imm32 } = self.instructions[i] {
                r.push((i, reg, imm32));
            }
            i = i + 1;
        }
        assert(s.take(i as int) =~= s);
        r
    }
}

/// A parsed stream has one instruction per word, at least five of them, the
/// start sentinel in fourth place and the halt instruction in last place.
pub proof fn law_stream_framing(data: Seq<u8>)
    requires
        is_stream(data),
    ensures
        stream_instructions(data).len() == stream_words(data).len(),
        stream_instructions(data).len() >= 5,
        stream_instructions(data)[3] == InstructionView::StartSentinel,
        stream_instructions(data).last() == InstructionView::Halt,
{
    assert(halt_word()[0] != start_word()[0]);
}

/// When the second byte of a stream is `0x0f`, the first instruction is the
/// header and it tells the number of words.
pub proof fn law_header_counts_words(data: Seq<u8>)
    requires
        is_stream(data),
        data[1] == 0x0f,
    ensures
        stream_instructions(data)[0] matches InstructionView::Header { n_words } && n_words
            == stream_words(data).len(),
{
    let w = word_at(data, 0);
    assert(w[0] == 0x80 && w[1] == 0x0f);
    assert(start_word()[0] == 0 && halt_word()[0] == 0xC0);
    assert(w.subrange(3, 5) =~= data.subrange(3, 5));
    lemma_le_nat_bound(data.subrange(3, 5));
}

/// The words of a stream, put end to end, are its bytes; at most the last
/// twelve bytes, which fill no word, are left over.
pub proof fn law_words_cover_stream(data: Seq<u8>)
    requires
        is_stream(data),
    ensures
        data.len() - 16 * stream_words(data).len() <= 12,
        forall|k: int|
            0 <= k < 16 * stream_words(data).len() ==> #[trigger] data[k] == stream_words(data)[k
                / 16][k % 16],
{
}

/// Every entry of the `Movi` list points at a `Movi` instruction with the same
/// operands, the positions ascend, and no `Movi` instruction is left out.
pub proof fn law_movi_list(s: Seq<InstructionView>)
    requires
        s.len() <= usize::MAX,
    ensures
        forall|k: int|
            0 <= k < movis_of(s).len() ==> {
                let (i, reg, imm32) = #[trigger] movis_of(s)[k];
                i < s.len() && s[i as int] == InstructionView::Movi { reg, imm32 }
            },
        forall|j: int, k: int|
            0 <= j < k < movis_of(s).len() ==> (#[trigger] movis_of(s)[j]).0 < (
            #[trigger] movis_of(s)[k]).0,
        forall|i: int|
            0 <= i < s.len() && #[trigger] s[i] is Movi ==> exists|k: int|
                0 <= k < movis_of(s).len() && (#[trigger] movis_of(s)[k]).0 == i,
    decreases s.len(),
{
    if s.len() > 0 {
        let before = s.drop_last();
        law_movi_list(before);
        let m = movis_of(s);
        let b = movis_of(before);
        assert forall|i: int| 0 <= i < s.len() && #[trigger] s[i] is Movi implies exists|k: int|
            0 <= k < m.len() && (#[trigger] m[k]).0 == i by {
            if i < before.len() {
                assert(before[i] is Movi);
                let k = choose|k: int| 0 <= k < b.len() && (#[trigger] b[k]).0 == i;
                assert(m[k] == b[k]);
            } else {
                assert(m[m.len() - 1].0 == i);
            }
        }
        assert forall|k: int| 0 <= k < m.len() implies {
            let (i, reg, imm32) = #[trigger] m[k];
            i < s.len() && s[i as int] == InstructionView::Movi { reg, imm32 }
        } by {
            if k < b.len() {
                assert(m[k] == b[k]);
            }
        }
    }
}

/// In a parsed stream only word 27 can carry the infeed size, so a program has
/// parameters only if word 27 is a DMA-size word, and then the infeed size is
/// that word's immediate. The input dimension is a multiple of four.
pub proof fn law_infeed_is_word_27(data: Seq<u8>)
    requires
        is_stream(data),
        params_of(stream_instructions(data)) is Some,
    ensures
        stream_words(data).len() > 27,
        word_at(data, 27)[1] == 0x08,
        word_at(data, 27)[6] != 0xc0,
        params_of(stream_instructions(data)).unwrap().dma_input_bytes == immediate(
            word_at(data, 27),
        ),
        params_of(stream_instructions(data)).unwrap().input_dim % 4 == 0,
{
    let s = stream_instructions(data);
    let f = |i: InstructionView| infeed_bytes(i);
    let k = lemma_first_some_found(s, |i: InstructionView| config_dim(i));
    assert(s[k] == decoded(k, word_at(data, k), word_after(data, k)));
    assert forall|k: int| 0 <= k < s.len() && k != 27 implies f(#[trigger] s[k]) is None by {}
    if s.len() <= 27 {
        lemma_first_some(s, f, s.len() as int);
    } else if f(s[27]) is None {
        lemma_first_some(s, f, s.len() as int);
    } else {
        lemma_first_some(s, f, 27);
    }
}

/// The sixth MAC slot `1 - n / 4` stands for the input dimension `n`.
pub proof fn law_mac_input_dim(slot: i16, n: u32)
    requires
        n == 4 * (1 - slot),
    ensures
        mac_input_dim(slot) == n,
{
}

/// A stream parses exactly when its framing is right: it starts with `0x80`, its
/// length is that in bytes 3 and 4, bytes 48 to 63 are the start sentinel and
/// its last full word is the halt word. The first of these that is wrong is
/// reported.
pub proof fn law_parse_outcome(data: Seq<u8>, r: Result<Program, ParseError>)
    requires
        parse_agrees(data, r),
    ensures
        ({
            let size = data[3] + 256 * data[4];
            let last = 16 * (data.len() as int / 16 - 1);
            let header = data.len() >= 16 && data[0] == 0x80;
            let sized = data.len() == 32 + 4 * size;
            let started = data.len() >= 64 && data[62] == 0xC0 && data[63] == 0x07 && forall|i: int|
                48 <= i < 62 ==> #[trigger] data[i] == 0;
            let halted = data[last] == 0xC0 && data[last + 1] == 0x0F && data[last + 2] == 0
                && data[last + 3] == 0x04 && forall|i: int|
                last + 4 <= i < last + 16 ==> #[trigger] data[i] == 0;
            &&& r is Ok <==> header && sized && started && halted
            &&& (r matches Err(ParseError::InvalidHeader)) <==> !header
            &&& (r is Err && r->Err_0 is InvalidSize) <==> header && !sized
            &&& r matches Err(ParseError::InvalidSize { expected, got }) ==> expected == 32 + 4
                * size && got == data.len()
            &&& (r matches Err(ParseError::MissingStartWord)) <==> header && sized && !started
            &&& (r matches Err(ParseError::MissingHaltWord)) <==> header && sized && started
                && !halted
        }),
{
    if data.len() >= 16 {
        lemma_le_nat_2(data.subrange(3, 5));
        let size = data[3] + 256 * data[4];
        assert(payload_size(data) == size);
        if data.len() == 32 + 4 * size {
            let last = 16 * (data.len() as int / 16 - 1);
            assert(announced_words(data) == data.len() / 16);
            if data.len() >= 64 {
                let w = word_at(data, 3);
                assert forall|i: int| 0 <= i < 16 implies #[trigger] w[i] == data[48 + i] by {}
                if w == start_word() {
                    assert forall|i: int| 48 <= i < 62 implies #[trigger] data[i] == 0 by {
                        assert(w[i - 48] == data[i]);
                    }
                    assert(w[14] == data[62] && w[15] == data[63]);
                } else {
                    assert(!(w =~= start_word()));
                }
            }
            let h = word_at(data, announced_words(data) - 1);
            assert forall|i: int| 0 <= i < 16 implies #[trigger] h[i] == data[last + i] by {}
            if h == halt_word() {
                assert forall|i: int| last + 4 <= i < last + 16 implies #[trigger] data[i] == 0 by {
                    assert(h[i - last] == data[i]);
                }
                assert(h[0] == data[last] && h[1] == data[last + 1] && h[2] == data[last + 2]
                    && h[3] == data[last + 3]);
            } else {
                assert(!(h =~= halt_word()));
            }
        }
    }
}

/// A parsed program holds the words of the stream, sixteen bytes each, and what
/// each of them decodes to together with its successor; behind the last word
/// come zeros.
pub proof fn law_parsed_program(data: Seq<u8>, p: Program)
    requires
        parse_agrees(data, Ok(p)),
    ensures
        p.words@.len() == data.len() / 16,
        p.instructions@.len() == data.len() / 16,
        forall|i: int, j: int|
            0 <= i < p.words@.len() && 0 <= j < 16 ==> (#[trigger] p.words@[i]@[j]) == data[16 * i
                + j],
        forall|i: int|
            0 <= i < p.instructions@.len() ==> (#[trigger] p.instructions@[i])@ == decoded(
                i,
                data.subrange(16 * i, 16 * i + 16),
                if i + 1 < data.len() / 16 {
                    data.subrange(16 * i + 16, 16 * i + 32)
                } else {
                    Seq::new(16, |k: int| 0u8)
                },
            ),
{
    lemma_le_nat_2(data.subrange(3, 5));
    assert(announced_words(data) == data.len() / 16);
    let words = word_views(p.words@);
    let instructions = instruction_views(p.instructions@);
    assert(words.len() == p.words@.len());
    assert(instructions.len() == p.instructions@.len());
    assert forall|i: int, j: int| 0 <= i < p.words@.len() && 0 <= j < 16 implies (
    #[trigger] p.words@[i]@[j]) == data[16 * i + j] by {
        assert(words[i] == p.words@[i]@);
        assert(words[i] == word_at(data, i));
    }
    assert(zero_word() =~= Seq::new(16, |k: int| 0u8));
    assert forall|i: int| 0 <= i < p.instructions@.len() implies (
    #[trigger] p.instructions@[i])@ == decoded(
        i,
        data.subrange(16 * i, 16 * i + 16),
        if i + 1 < data.len() / 16 {
            data.subrange(16 * i + 16, 16 * i + 32)
        } else {
            Seq::new(16, |k: int| 0u8)
        },
    ) by {
        assert(instructions[i] == p.instructions@[i]@);
        assert(16 * (i + 1) == 16 * i + 16 && 16 * (i + 1) + 16 == 16 * i + 32);
    }
}

/// An instruction and its mathematical view are the same thing.
pub proof fn law_instruction_view(i: Instruction)
    ensures
        match i {
            Instruction::Header { n_words } => i@ == (InstructionView::Header { n_words }),
            Instruction::Movi { reg, imm32 } => i@ == (InstructionView::Movi { reg, imm32 }),
            Instruction::DmaSize { kind, bytes } => i@ == (InstructionView::DmaSize {
                kind,
                bytes,
            }),
            Instruction::Fence { seq } => i@ == (InstructionView::Fence { seq }),
            Instruction::FencePair => i@ == InstructionView::FencePair,
            Instruction::TileConfig { multi_tile } => i@ == (InstructionView::TileConfig {
                multi_tile,
            }),
            Instruction::MacCtrl { skeleton } => i@ == (InstructionView::MacCtrl { skeleton }),
            Instruction::MacConfig { slots, input_dim } => i@ == (InstructionView::MacConfig {
                slots: slots@,
                input_dim,
            }),
            Instruction::StartSentinel => i@ == InstructionView::StartSentinel,
            Instruction::Halt => i@ == InstructionView::Halt,
            Instruction::Unknown { raw } => i@ == (InstructionView::Unknown { raw: raw@ }),
        },
{
}

/// A `Movi` word decodes to the register that its byte 7 selects and to the 32
/// bits that start at bit 6 of its upper half. Each of the eight known bytes
/// selects a register of its own; any other byte reads as the lower parameter
/// address.
pub proof fn law_movi_words(index: int, w: Seq<u8>, next: Seq<u8>)
    requires
        w.len() == 16,
        w[1] == 0x08,
        w[6] == 0xc0,
    ensures
        ({
            let imm32 = w[8] / 64 + 4 * w[9] + 0x400 * w[10] + 0x4_0000 * w[11] + 0x400_0000 * (
            w[12] % 64);
            let r = decoded(index, w, next);
            &&& r is Movi
            &&& r->Movi_imm32 == imm32
            &&& w[7] == 0x1b ==> r->Movi_reg is ParamLo
            &&& w[7] == 0x0b ==> r->Movi_reg is ParamHi
            &&& w[7] == 0x3b ==> r->Movi_reg is ScratchLo
            &&& w[7] == 0x2b ==> r->Movi_reg is ScratchHi
            &&& w[7] == 0xab ==> r->Movi_reg is ActHi
            &&& w[7] == 0xbb ==> r->Movi_reg is ActLo
            &&& w[7] == 0x4b ==> r->Movi_reg is ClearHi
            &&& w[7] == 0x5b ==> r->Movi_reg is ClearLo
            &&& !(w[7] == 0x0b || w[7] == 0x3b || w[7] == 0x2b || w[7] == 0xab || w[7] == 0xbb
                || w[7] == 0x4b || w[7] == 0x5b) ==> r->Movi_reg is ParamLo
        }),
{
    assert(start_word()[1] == 0 && halt_word()[1] == 0x0F);
    lemma_immediate(w);
}

/// Two `Movi` words with different known register bytes load different
/// registers.
pub proof fn law_movi_registers_differ(
    index: int,
    w: Seq<u8>,
    next: Seq<u8>,
    other_index: int,
    v: Seq<u8>,
    other_next: Seq<u8>,
)
    requires
        w.len() == 16 && v.len() == 16,
        w[1] == 0x08 && w[6] == 0xc0,
        v[1] == 0x08 && v[6] == 0xc0,
        seq![0x1bu8, 0x0b, 0x3b, 0x2b, 0xab, 0xbb, 0x4b, 0x5b].contains(w[7]),
        seq![0x1bu8, 0x0b, 0x3b, 0x2b, 0xab, 0xbb, 0x4b, 0x5b].contains(v[7]),
    ensures
        decoded(index, w, next)->Movi_reg == decoded(other_index, v, other_next)->Movi_reg <==> w[7]
            == v[7],
{
    assert(start_word()[1] == 0 && halt_word()[1] == 0x0F);
}

/// The immediate of a word, byte by byte.
proof fn lemma_immediate(w: Seq<u8>)
    requires
        w.len() == 16,
    ensures
        immediate(w) == w[8] / 64 + 4 * w[9] + 0x400 * w[10] + 0x4_0000 * w[11] + 0x400_0000 * (
        w[12] % 64),
{
    let hi = w.subrange(8, 16);
    lemma_le_nat_8(hi);
    assert(hi[0] == w[8] && hi[1] == w[9] && hi[2] == w[10] && hi[3] == w[11] && hi[4] == w[12]
        && hi[5] == w[13] && hi[6] == w[14] && hi[7] == w[15]);
    let low = w[8] + 0x100 * w[9] + 0x1_0000 * w[10] + 0x100_0000 * w[11] + 0x1_0000_0000 * (w[12]
        % 64);
    let high = w[12] / 64 + 4 * w[13] + 0x400 * w[14] + 0x4_0000 * w[15];
    assert(le_nat(hi) == low + 0x40_0000_0000 * high);
    assert(le_nat(hi) / 64 == low / 64 + 0x1_0000_0000 * high);
    assert(low / 64 < 0x1_0000_0000);
    assert((le_nat(hi) / 64) % 0x1_0000_0000 == low / 64);
}

/// A DMA-size word, which is a word with `0x08` in byte 1 that is no `Movi`,
/// decodes to the 32 bits that start at bit 6 of its upper half; word 27, and
/// only that, is the infeed.
pub proof fn law_dma_words(index: int, w: Seq<u8>, next: Seq<u8>)
    requires
        w.len() == 16,
        w[1] == 0x08,
        w[6] != 0xc0,
    ensures
        ({
            let bytes = w[8] / 64 + 4 * w[9] + 0x400 * w[10] + 0x4_0000 * w[11] + 0x400_0000 * (
            w[12] % 64);
            let r = decoded(index, w, next);
            &&& r is DmaSize
            &&& r->DmaSize_bytes == bytes
            &&& r->DmaSize_kind is Infeed <==> index == 27
        }),
{
    assert(start_word()[1] == 0 && halt_word()[1] == 0x0F);
    lemma_immediate(w);
}

/// The words that carry no operand, or a single byte of it, decode by their
/// first two bytes.
pub proof fn law_plain_words(index: int, w: Seq<u8>, next: Seq<u8>)
    requires
        w.len() == 16,
    ensures
        ({
            let r = decoded(index, w, next);
            &&& w[0] == 0x80 && w[1] == 0x0f ==> r == (InstructionView::Header {
                n_words: ((w[3] + 256 * w[4]) / 4 + 2) as u16,
            })
            &&& w[0] == 0x80 && w[1] == 0xf6 ==> r == (InstructionView::Fence { seq: w[3] })
            &&& w[0] == 0 && w[1] == 0xf9 ==> r == InstructionView::FencePair
            &&& w[0] == 0x40 && w[1] == 0x19 ==> r == (InstructionView::TileConfig {
                multi_tile: w[4] != 0,
            })
            &&& w[0] == 0x40 && w[1] == 0x10 ==> r == (InstructionView::MacCtrl {
                skeleton: OutputSkeleton::Single,
            })
            &&& w[0] == 0 && w[1] == 0x15 ==> r == (InstructionView::MacCtrl {
                skeleton: OutputSkeleton::Vector,
            })
        }),
{
    let s = start_word();
    let h = halt_word();
    assert(s[0] == 0 && s[1] == 0 && h[0] == 0xC0);
    lemma_le_nat_2(w.subrange(3, 5));
}

/// The two sentinels decode to themselves, and nothing else does.
pub proof fn law_sentinel_words(index: int, w: Seq<u8>, next: Seq<u8>)
    requires
        w.len() == 16,
    ensures
        decoded(index, w, next) is StartSentinel <==> w[14] == 0xC0 && w[15] == 0x07 && forall|i: int|
            0 <= i < 14 ==> #[trigger] w[i] == 0,
        decoded(index, w, next) is Halt <==> w[0] == 0xC0 && w[1] == 0x0F && w[2] == 0 && w[3]
            == 0x04 && forall|i: int| 4 <= i < 16 ==> #[trigger] w[i] == 0,
{
    if w[14] == 0xC0 && w[15] == 0x07 && forall|i: int| 0 <= i < 14 ==> #[trigger] w[i] == 0 {
        assert(w =~= start_word());
    }
    if w[0] == 0xC0 && w[1] == 0x0F && w[2] == 0 && w[3] == 0x04 && forall|i: int|
        4 <= i < 16 ==> #[trigger] w[i] == 0 {
        assert(w =~= halt_word());
        assert(w[0] != start_word()[0]);
    }
}

/// A stride-carrying MAC configuration, marked by `0x14` in byte 1 and `00 80`
/// in bytes 10 and 11, takes four slots from its own upper half and four from
/// the lower half of the next word, each two's complement of two bytes. Its
/// input dimension is four times one minus the sixth slot, modulo 2^32.
pub proof fn law_mac_config_words(index: int, w: Seq<u8>, next: Seq<u8>)
    requires
        w.len() == 16,
        next.len() == 16,
        w[1] == 0x14,
        w[10] == 0,
        w[11] == 0x80,
    ensures
        ({
            let r = decoded(index, w, next);
            let slots = r->MacConfig_slots;
            &&& r is MacConfig
            &&& slots.len() == 8
            &&& forall|i: int|
                0 <= i < 4 ==> (#[trigger] slots[i]) == w[8 + 2 * i] + 256 * w[9 + 2 * i] - if w[9
                    + 2 * i] >= 128 {
                    0x1_0000int
                } else {
                    0
                }
            &&& forall|i: int|
                4 <= i < 8 ==> (#[trigger] slots[i]) == next[2 * i - 8] + 256 * next[2 * i - 7]
                    - if next[2 * i - 7] >= 128 {
                    0x1_0000int
                } else {
                    0
                }
            &&& slots[5] <= 1 ==> r->MacConfig_input_dim == 4 * (1 - slots[5])
            &&& slots[5] > 1 ==> r->MacConfig_input_dim == 0x1_0000_0000 - 4 * (slots[5] - 1)
        }),
{
    let s = start_word();
    let h = halt_word();
    assert(s[1] == 0 && h[1] == 0x0F);
    let r = decoded(index, w, next);
    let slots = r->MacConfig_slots;
    assert forall|i: int| 0 <= i < 4 implies (#[trigger] slots[i]) == w[8 + 2 * i] + 256 * w[9 + 2
        * i] - if w[9 + 2 * i] >= 128 {
        0x1_0000int
    } else {
        0
    } by {
        let pair = w.subrange(8 + 2 * i, 10 + 2 * i);
        lemma_le_nat_2(pair);
        assert(pair[0] == w[8 + 2 * i] && pair[1] == w[9 + 2 * i]);
    }
    assert forall|i: int| 4 <= i < 8 implies (#[trigger] slots[i]) == next[2 * i - 8] + 256
        * next[2 * i - 7] - if next[2 * i - 7] >= 128 {
        0x1_0000int
    } else {
        0
    } by {
        let pair = next.subrange(2 * (i - 4), 2 * (i - 4) + 2);
        lemma_le_nat_2(pair);
        assert(pair[0] == next[2 * i - 8] && pair[1] == next[2 * i - 7]);
    }
}

/// A word that is marked as none of the known kinds is kept as it is.
pub proof fn law_unknown_words(index: int, w: Seq<u8>, next: Seq<u8>)
    requires
        w.len() == 16,
    ensures
        ({
            let known = (w[0] == 0x80 && (w[1] == 0x0f || w[1] == 0xf6)) || (w[0] == 0 && (w[1]
                == 0xf9 || w[1] == 0x15)) || (w[0] == 0x40 && (w[1] == 0x19 || w[1] == 0x10)) || (
            w[1] == 0x14 && w[10] == 0 && w[11] == 0x80) || w[1] == 0x08 || decoded(
                index,
                w,
                next,
            ) is StartSentinel || decoded(index, w, next) is Halt;
            &&& !known ==> decoded(index, w, next) == (InstructionView::Unknown { raw: w })
            &&& known ==> !(decoded(index, w, next) is Unknown)
        }),
{
}

/// The parameters of a program are the size of its first infeed, the dimension
/// of its first MAC configuration and the skeleton of its first MAC control
/// word; it has none if one of these is missing.
pub proof fn law_params_are_first_occurrences(s: Seq<InstructionView>)
    ensures
        match params_of(s) {
            Some(p) => {
                &&& exists|k: int|
                    0 <= k < s.len() && #[trigger] s[k] == (InstructionView::DmaSize {
                        kind: DmaKind::Infeed,
                        bytes: p.dma_input_bytes,
                    }) && forall|j: int|
                        0 <= j < k ==> !((#[trigger] s[j]) is DmaSize && s[j]->DmaSize_kind is Infeed)
                &&& exists|k: int|
                    0 <= k < s.len() && (#[trigger] s[k]) is MacConfig
                        && s[k]->MacConfig_input_dim == p.input_dim && forall|j: int|
                        0 <= j < k ==> !((#[trigger] s[j]) is MacConfig)
                &&& exists|k: int|
                    0 <= k < s.len() && #[trigger] s[k] == (InstructionView::MacCtrl {
                        skeleton: p.output_skeleton,
                    }) && forall|j: int| 0 <= j < k ==> !((#[trigger] s[j]) is MacCtrl)
            },
            None => {
                ||| forall|j: int|
                    0 <= j < s.len() ==> !((#[trigger] s[j]) is DmaSize && s[j]->DmaSize_kind is Infeed)
                ||| forall|j: int| 0 <= j < s.len() ==> !((#[trigger] s[j]) is MacConfig)
                ||| forall|j: int| 0 <= j < s.len() ==> !((#[trigger] s[j]) is MacCtrl)
            },
        },
{
    let f = |i: InstructionView| infeed_bytes(i);
    let g = |i: InstructionView| config_dim(i);
    let h = |i: InstructionView| ctrl_skeleton(i);
    let a = lemma_first_some_at(s, f);
    let b = lemma_first_some_at(s, g);
    let c = lemma_first_some_at(s, h);
    assert forall|j: int| 0 <= j < a && j < s.len() implies !((#[trigger] s[j]) is DmaSize
        && s[j]->DmaSize_kind is Infeed) by {
        assert(f(s[j]) is None);
    }
    assert forall|j: int| 0 <= j < b && j < s.len() implies !((#[trigger] s[j]) is MacConfig) by {
        assert(g(s[j]) is None);
    }
    assert forall|j: int| 0 <= j < c && j < s.len() implies !((#[trigger] s[j]) is MacCtrl) by {
        assert(h(s[j]) is None);
    }
}

/// Where `first_some` finds its value; the length if it finds none.
proof fn lemma_first_some_at<T>(
    s: Seq<InstructionView>,
    f: spec_fn(InstructionView) -> Option<T>,
) -> (k: int)
    ensures
        0 <= k <= s.len(),
        forall|j: int| 0 <= j < k ==> f(#[trigger] s[j]) is None,
        k < s.len() ==> f(s[k]) is Some && first_some(s, f) == f(s[k]),
        k == s.len() ==> first_some(s, f) is None,
    decreases s.len(),
{
    if s.len() == 0 {
        0
    } else if f(s[0]) is Some {
        0
    } else {
        let rest = s.drop_first();
        let k = lemma_first_some_at(rest, f);
        assert forall|j: int| 0 <= j < k + 1 implies f(#[trigger] s[j]) is None by {
            if j > 0 {
                assert(rest[j - 1] == s[j]);
            }
        }
        k + 1
    }
}

/// Eight bytes select a register, each one its own, and no other byte does.
pub proof fn law_register_bytes(b: u8)
    ensures
        register_of(b) == match b {
            0x1bu8 => Some(Register::ParamLo),
            0x0bu8 => Some(Register::ParamHi),
            0x3bu8 => Some(Register::ScratchLo),
            0x2bu8 => Some(Register::ScratchHi),
            0xbbu8 => Some(Register::ActLo),
            0xabu8 => Some(Register::ActHi),
            0x5bu8 => Some(Register::ClearLo),
            0x4bu8 => Some(Register::ClearHi),
            _ => None,
        },
{
}

} // verus!
