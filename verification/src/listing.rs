//! Text forms of parser results: register names, error messages and the
//! disassembly listing of a program.

use vstd::prelude::*;

use crate::parser::{
    instruction_views, DmaKind, Instruction, InstructionView, OutputSkeleton, ParseError, Program,
    Register,
};
use crate::text::{
    decimal, joined, numeral, push_decimal, push_signed, push_space_padded, push_zero_padded,
    signed_decimal, space_padded, zero_padded,
};

verus! {

/// The assembler name of a register.
pub open spec fn register_name(reg: Register) -> Seq<char> {
    match reg {
        Register::ParamLo => "r_param_lo"@,
        Register::ParamHi => "r_param_hi"@,
        Register::ScratchLo => "r_scratch_lo"@,
        Register::ScratchHi => "r_scratch_hi"@,
        Register::ActHi => "r_act_hi"@,
        Register::ActLo => "r_act_lo"@,
        Register::ClearHi => "r_clear_hi"@,
        Register::ClearLo => "r_clear_lo"@,
    }
}

/// The message of a parse error.
pub open spec fn parse_error_text(e: ParseError) -> Seq<char> {
    match e {
        ParseError::Io(message) => "I/O error: "@ + message@,
        ParseError::InvalidHeader => "invalid file header"@,
        ParseError::InvalidSize { expected, got } => "invalid size: expected "@ + decimal(
            expected as nat,
        ) + " bytes, got "@ + decimal(got as nat),
        ParseError::MissingStartWord => "missing start sentinel at word 3"@,
        ParseError::MissingHaltWord => "missing halt word at end"@,
    }
}

/// The decimal numerals of the MAC slots.
pub open spec fn slot_texts(slots: Seq<i16>) -> Seq<Seq<char>> {
    slots.map_values(|s: i16| signed_decimal(s as int))
}

/// The two upper-case hexadecimal digits of each byte.
pub open spec fn byte_texts(raw: Seq<u8>) -> Seq<Seq<char>> {
    raw.map_values(|b: u8| zero_padded(numeral(b as nat, 16, true), 2))
}

/// `true` or `false`.
pub open spec fn bool_text(b: bool) -> Seq<char> {
    if b {
        "true"@
    } else {
        "false"@
    }
}

/// The part of a listing line that all instructions share.
pub open spec fn line_start(i: nat) -> Seq<char> {
    "word "@ + zero_padded(decimal(i), 3)
}

/// The listing line of the instruction at word `i`, without its line break.
pub open spec fn line_text(i: nat, instr: InstructionView) -> Seq<char> {
    match instr {
        InstructionView::Header { n_words } => line_start(i) + "  HEADER      n_words="@ + decimal(
            n_words as nat,
        ),
        InstructionView::Fence { seq } => line_start(i) + "  FENCE       seq=0x"@ + zero_padded(
            numeral(seq as nat, 16, false),
            2,
        ),
        InstructionView::FencePair => line_start(i) + "  FENCE_PAIR"@,
        InstructionView::Movi { reg, imm32 } => line_start(i) + "  MOVI        "@ + space_padded(
            register_name(reg),
            14,
        ) + "  imm=0x"@ + zero_padded(numeral(imm32 as nat, 16, false), 8),
        InstructionView::TileConfig { multi_tile } => line_start(i) + "  TILE_CFG    multi_tile="@
            + bool_text(multi_tile),
        InstructionView::DmaSize { kind, bytes } => line_start(i) + "  DMA_SIZE    "@ + (match kind {
            DmaKind::Infeed => "infeed "@,
            DmaKind::Generic => "generic"@,
        }) + " "@ + decimal(bytes as nat) + " bytes"@,
        InstructionView::MacConfig { slots, input_dim } => line_start(i) + "  MAC_CFG     slots=["@
            + joined(slot_texts(slots), ", "@) + "]  input_dim="@ + decimal(input_dim as nat),
        InstructionView::MacCtrl { skeleton } => line_start(i) + "  MAC_CTRL    skeleton="@ + (
        match skeleton {
            OutputSkeleton::Single => "Single"@,
            OutputSkeleton::Vector => "Vector"@,
        }),
        InstructionView::StartSentinel => line_start(i) + "  START"@,
        InstructionView::Halt => line_start(i) + "  HALT"@,
        InstructionView::Unknown { raw } => line_start(i) + "  UNKNOWN  "@ + joined(
            byte_texts(raw),
            " "@,
        ),
    }
}

/// The listing of a list of instructions: one line each, in order.
pub open spec fn listing(s: Seq<InstructionView>) -> Seq<char>
    decreases s.len(),
{
    if s.len() == 0 {
        Seq::empty()
    } else {
        listing(s.drop_last()) + line_text((s.len() - 1) as nat, s.last()) + "\n"@
    }
}

impl Register {
    /// The assembler name.
    pub fn name(&self) -> (r: &'static str)
        ensures
            r@ == register_name(*self),
    {
        match *self {
            Register::ParamLo => "r_param_lo",
            Register::ParamHi => "r_param_hi",
            Register::ScratchLo => "r_scratch_lo",
            Register::ScratchHi => "r_scratch_hi",
            Register::ActHi => "r_act_hi",
            Register::ActLo => "r_act_lo",
            Register::ClearHi => "r_clear_hi",
            Register::ClearLo => "r_clear_lo",
        }
    }

    /// The assembler name as an owned string.
    pub fn to_string(&self) -> (r: String)
        ensures
            r@ == register_name(*self),
    {
        self.name().to_string()
    }
}

impl ParseError {
    /// The error message.
    pub fn to_string(&self) -> (r: String)
        ensures
            r@ == parse_error_text(*self),
    {
        match self {
            ParseError::Io(message) => {
                let mut r = "I/O error: ".to_string();
                r.append(message.as_str());
                r
            },
            ParseError::InvalidHeader => "invalid file header".to_string(),
            ParseError::InvalidSize { expected, got } => {
                let mut r = "invalid size: expected ".to_string();
                push_decimal(&mut r, *expected as u64);
                r.append(" bytes, got ");
                push_decimal(&mut r, *got as u64);
                r
            },
            ParseError::MissingStartWord => "missing start sentinel at word 3".to_string(),
            ParseError::MissingHaltWord => "missing halt word at end".to_string(),
        }
    }
}

/// The MAC slots as comma-separated decimal numerals.
fn slots_text(slots: &[i16; 8]) -> (r: String)
    ensures
        r@ == joined(slot_texts(slots@), ", "@),
{
    let ghost parts = slot_texts(slots@);
    let mut r = String::new();
    let mut i: usize = 0;
    assert(parts.take(0) =~= Seq::empty());
    while i < 8
        invariant
            i <= 8,
            parts == slot_texts(slots@),
            r@ == joined(parts.take(i as int), ", "@),
        decreases 8 - i,
    {
        assert(parts.take(i + 1).drop_last() =~= parts.take(i as int));
        if i > 0 {
            r.append(", ");
        }
        push_signed(&mut r, slots[i] as i64);
        assert(r@ =~= joined(parts.take(i + 1), ", "@));
        i = i + 1;
    }
    assert(parts.take(8) =~= parts);
    r
}

/// The bytes of a word as space-separated hexadecimal digit pairs.
fn raw_text(raw: &[u8; 16]) -> (r: String)
    ensures
        r@ == joined(byte_texts(raw@), " "@),
{
    let ghost parts = byte_texts(raw@);
    let mut r = String::new();
    let mut i: usize = 0;
    assert(parts.take(0) =~= Seq::empty());
    while i < 16
        invariant
            i <= 16,
            parts == byte_texts(raw@),
            r@ == joined(parts.take(i as int), " "@),
        decreases 16 - i,
    {
        assert(parts.take(i + 1).drop_last() =~= parts.take(i as int));
        if i > 0 {
            r.append(" ");
        }
        push_zero_padded(&mut r, raw[i] as u64, 16, true, 2);
        assert(r@ =~= joined(parts.take(i + 1), " "@));
        i = i + 1;
    }
    assert(parts.take(16) =~= parts);
    r
}

impl Instruction {
    /// The listing line of this instruction at word `i`, without a line break.
    pub fn line(&self, i: usize) -> (r: String)
        ensures
            r@ == line_text(i as nat, self@),
    {
        let mut r = "word ".to_string();
        push_zero_padded(&mut r, i as u64, 10, false, 3);
        match self {
            Instruction::Header { n_words } => {
                r.append("  HEADER      n_words=");
                push_decimal(&mut r, *n_words as u64);
            },
            Instruction::Fence { seq } => {
                r.append("  FENCE       seq=0x");
                push_zero_padded(&mut r, *seq as u64, 16, false, 2);
            },
            Instruction::FencePair => {
                r.append("  FENCE_PAIR");
            },
            Instruction::Movi { reg, imm32 } => {
                r.append("  MOVI        ");
                push_space_padded(&mut r, reg.name(), 14);
                r.append("  imm=0x");
                push_zero_padded(&mut r, *imm32 as u64, 16, false, 8);
            },
            Instruction::TileConfig { multi_tile } => {
                r.append("  TILE_CFG    multi_tile=");
                r.append(if *multi_tile {
                    "true"
                } else {
                    "false"
                });
            },
            Instruction::DmaSize { kind, bytes } => {
                r.append("  DMA_SIZE    ");
                r.append(
                    match *kind {
                        DmaKind::Infeed => "infeed ",
                        DmaKind::Generic => "generic",
                    },
                );
                r.append(" ");
                push_decimal(&mut r, *bytes as u64);
                r.append(" bytes");
            },
            Instruction::MacConfig { slots, input_dim } => {
                r.append("  MAC_CFG     slots=[");
                r.append(slots_text(slots).as_str());
                r.append("]  input_dim=");
                push_decimal(&mut r, *input_dim as u64);
            },
            Instruction::MacCtrl { skeleton } => {
                r.append("  MAC_CTRL    skeleton=");
                r.append(
                    match *skeleton {
                        OutputSkeleton::Single => "Single",
                        OutputSkeleton::Vector => "Vector",
                    },
                );
            },
            Instruction::StartSentinel => {
                r.append("  START");
            },
            Instruction::Halt => {
                r.append("  HALT");
            },
            Instruction::Unknown { raw } => {
                r.append("  UNKNOWN  ");
                r.append(raw_text(raw).as_str());
            },
        }
        r
    }
}

impl Program {
    /// The disassembly listing: one line per instruction.
    pub fn to_string(&self) -> (r: String)
        ensures
            r@ == listing(instruction_views(self.instructions@)),
    {
        let ghost s = instruction_views(self.instructions@);
        let mut r = String::new();
        let mut i: usize = 0;
        assert(s.take(0) =~= Seq::empty());
        while i < self.instructions.len()
            invariant
                i <= self.instructions@.len(),
                s == instruction_views(self.instructions@),
                r@ == listing(s.take(i as int)),
            decreases self.instructions@.len() - i,
        {
            assert(s.take(i + 1).drop_last() =~= s.take(i as int));
            assert(s.take(i + 1).last() == self.instructions@[i as int]@);
            r.append(self.instructions[i].line(i).as_str());
            r.append("\n");
            i = i + 1;
        }
        assert(s.take(i as int) =~= s);
        r
    }
}

/// The registers have their own names.
pub proof fn law_register_names()
    ensures
        register_name(Register::ParamLo) == "r_param_lo"@,
        register_name(Register::ParamHi) == "r_param_hi"@,
        register_name(Register::ScratchLo) == "r_scratch_lo"@,
        register_name(Register::ScratchHi) == "r_scratch_hi"@,
        register_name(Register::ActHi) == "r_act_hi"@,
        register_name(Register::ActLo) == "r_act_lo"@,
        register_name(Register::ClearHi) == "r_clear_hi"@,
        register_name(Register::ClearLo) == "r_clear_lo"@,
{
}

/// Parse errors say what was wrong.
pub proof fn law_parse_error_texts(message: String, expected: usize, got: usize)
    ensures
        parse_error_text(ParseError::Io(message)) == "I/O error: "@ + message@,
        parse_error_text(ParseError::InvalidHeader) == "invalid file header"@,
        parse_error_text(ParseError::InvalidSize { expected, got }) == "invalid size: expected "@
            + numeral(expected as nat, 10, false) + " bytes, got "@ + numeral(
            got as nat,
            10,
            false,
        ),
        parse_error_text(ParseError::MissingStartWord) == "missing start sentinel at word 3"@,
        parse_error_text(ParseError::MissingHaltWord) == "missing halt word at end"@,
{
}

/// A program is listed line by line: adding an instruction adds its line, which
/// begins with the number of the word.
pub proof fn law_listing_grows_by_lines(s: Seq<InstructionView>, instr: InstructionView)
    ensures
        listing(Seq::empty()) == Seq::<char>::empty(),
        listing(s.push(instr)) == listing(s) + line_text(s.len(), instr) + "\n"@,
        ({
            let start = "word "@ + zero_padded(numeral(s.len(), 10, false), 3);
            &&& line_text(s.len(), instr).len() >= start.len()
            &&& line_text(s.len(), instr).take(start.len() as int) == start
        }),
{
    assert(s.push(instr).drop_last() =~= s);
    let start = "word "@ + zero_padded(numeral(s.len(), 10, false), 3);
    assert(line_text(s.len(), instr).take(start.len() as int) =~= start);
}

/// Every kind of instruction is listed with its mnemonic and its operands.
pub proof fn law_listing_shows_operands(
    i: nat,
    reg: Register,
    n: u32,
    small: u16,
    seq: u8,
    slots: Seq<i16>,
    raw: Seq<u8>,
)
    ensures
        ({
            let start = "word "@ + zero_padded(numeral(i, 10, false), 3);
            let count = numeral(n as nat, 10, false);
            &&& line_text(i, InstructionView::Header { n_words: small }) == start
                + "  HEADER      n_words="@ + numeral(small as nat, 10, false)
            &&& line_text(i, InstructionView::Fence { seq }) == start + "  FENCE       seq=0x"@ + zero_padded(
                numeral(seq as nat, 16, false),
                2,
            )
            &&& line_text(i, InstructionView::FencePair) == start + "  FENCE_PAIR"@
            &&& line_text(i, InstructionView::Movi { reg, imm32: n }) == start
                + "  MOVI        "@ + space_padded(register_name(reg), 14) + "  imm=0x"@ + zero_padded(
                numeral(n as nat, 16, false),
                8,
            )
            &&& line_text(i, InstructionView::TileConfig { multi_tile: true }) == start
                + "  TILE_CFG    multi_tile="@ + "true"@
            &&& line_text(i, InstructionView::TileConfig { multi_tile: false }) == start
                + "  TILE_CFG    multi_tile="@ + "false"@
            &&& line_text(i, InstructionView::DmaSize { kind: DmaKind::Infeed, bytes: n }) == start
                + "  DMA_SIZE    "@ + "infeed "@ + " "@ + count + " bytes"@
            &&& line_text(i, InstructionView::DmaSize { kind: DmaKind::Generic, bytes: n })
                == start + "  DMA_SIZE    "@ + "generic"@ + " "@ + count + " bytes"@
            &&& line_text(i, InstructionView::MacConfig { slots, input_dim: n }) == start
                + "  MAC_CFG     slots=["@ + joined(
                Seq::new(slots.len(), |k: int| signed_decimal(slots[k] as int)),
                ", "@,
            ) + "]  input_dim="@ + count
            &&& line_text(i, InstructionView::MacCtrl { skeleton: OutputSkeleton::Single })
                == start + "  MAC_CTRL    skeleton="@ + "Single"@
            &&& line_text(i, InstructionView::MacCtrl { skeleton: OutputSkeleton::Vector })
                == start + "  MAC_CTRL    skeleton="@ + "Vector"@
            &&& line_text(i, InstructionView::StartSentinel) == start + "  START"@
            &&& line_text(i, InstructionView::Halt) == start + "  HALT"@
            &&& line_text(i, InstructionView::Unknown { raw }) == start + "  UNKNOWN  "@ + joined(
                Seq::new(raw.len(), |k: int| zero_padded(numeral(raw[k] as nat, 16, true), 2)),
                " "@,
            )
        }),
{
    assert(slot_texts(slots) =~= Seq::new(
        slots.len(),
        |k: int| signed_decimal(slots[k] as int),
    ));
    assert(byte_texts(raw) =~= Seq::new(
        raw.len(),
        |k: int| zero_padded(numeral(raw[k] as nat, 16, true), 2),
    ));
}

} // verus!
