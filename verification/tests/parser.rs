use reef_infer::parser::{decode_mac_config, decode_word, parse_words, word_hi64};
use reef_infer::{
    parse_instructions, DmaKind, Instruction, ModelParams, OutputSkeleton, ParseError, Program,
    Register,
};

const START: [u8; 16] = [0, 0, 0, 0, 0, 0, 0, 0, 0, 0, 0, 0, 0, 0, 0xC0, 0x07];
const HALT: [u8; 16] = [0xC0, 0x0F, 0, 0x04, 0, 0, 0, 0, 0, 0, 0, 0, 0, 0, 0, 0];
const ZERO: [u8; 16] = [0; 16];

fn header(n_words: usize) -> [u8; 16] {
    let size = ((n_words - 2) * 4) as u16;
    let mut w = ZERO;
    w[0] = 0x80;
    w[1] = 0x0f;
    w[3] = size.to_le_bytes()[0];
    w[4] = size.to_le_bytes()[1];
    w
}

fn movi(reg: u8, imm: u32) -> [u8; 16] {
    let mut w = ZERO;
    w[1] = 0x08;
    w[6] = 0xc0;
    w[7] = reg;
    w[8..16].copy_from_slice(&((imm as u64) << 6).to_le_bytes());
    w
}

fn dma(bytes: u32) -> [u8; 16] {
    let mut w = movi(0, bytes);
    w[6] = 0;
    w
}

fn mac_config() -> [u8; 16] {
    let mut w = ZERO;
    w[1] = 0x14;
    w[8] = 0x05;
    w[11] = 0x80;
    w[12] = 0xff;
    w[13] = 0xff;
    w
}

fn mac_config_tail(slot5: i16) -> [u8; 16] {
    let mut w = ZERO;
    w[0] = 7;
    w[2..4].copy_from_slice(&slot5.to_le_bytes());
    w
}

fn mac_ctrl(vector: bool) -> [u8; 16] {
    let mut w = ZERO;
    if vector {
        w[1] = 0x15;
    } else {
        w[0] = 0x40;
        w[1] = 0x10;
    }
    w
}

fn stream(words: &[[u8; 16]]) -> Vec<u8> {
    words.concat()
}

/// A full program: header, start word in fourth place, the infeed size in word
/// 27 and the halt word at the end.
fn program_words() -> Vec<[u8; 16]> {
    let mut words = vec![ZERO; 32];
    words[0] = header(32);
    words[1] = movi(0x1b, 0xdead_beef);
    words[2] = movi(0xab, 1);
    words[3] = START;
    words[10] = dma(4096);
    words[20] = mac_config();
    words[21] = mac_config_tail(-3);
    words[25] = mac_ctrl(true);
    words[26] = mac_ctrl(false);
    words[27] = dma(16);
    words[31] = HALT;
    words
}

fn parsed(words: &[[u8; 16]]) -> Program {
    match parse_words(&stream(words)) {
        Ok(p) => p,
        Err(e) => panic!("{}", e.to_string()),
    }
}

#[test]
fn parses_a_program() {
    let words = program_words();
    let p = parsed(&words);
    assert_eq!(p.words, words);
    assert_eq!(p.instructions.len(), 32);
    assert!(matches!(p.instructions[0], Instruction::Header { n_words: 32 }));
    assert!(matches!(
        p.instructions[1],
        Instruction::Movi { reg: Register::ParamLo, imm32: 0xdead_beef }
    ));
    assert!(matches!(p.instructions[3], Instruction::StartSentinel));
    assert!(matches!(
        p.instructions[10],
        Instruction::DmaSize { kind: DmaKind::Generic, bytes: 4096 }
    ));
    assert!(matches!(
        p.instructions[27],
        Instruction::DmaSize { kind: DmaKind::Infeed, bytes: 16 }
    ));
    assert!(matches!(p.instructions[31], Instruction::Halt));
}

#[test]
fn parses_what_was_read() {
    let p = parse_instructions(Ok(stream(&program_words())));
    assert!(p.is_ok());
}

#[test]
fn extracts_model_parameters() {
    let p = parsed(&program_words());
    assert_eq!(
        p.extract_params(),
        Some(ModelParams {
            input_dim: 16,
            dma_input_bytes: 16,
            output_skeleton: OutputSkeleton::Vector,
        })
    );
}

#[test]
fn parameters_need_all_three_parts() {
    for missing in [20, 27] {
        let mut words = program_words();
        words[missing] = ZERO;
        assert_eq!(parsed(&words).extract_params(), None);
    }
    let mut words = program_words();
    words[25] = ZERO;
    words[26] = ZERO;
    assert_eq!(parsed(&words).extract_params(), None);
    words[26] = mac_ctrl(false);
    assert_eq!(
        parsed(&words).extract_params().map(|p| p.output_skeleton),
        Some(OutputSkeleton::Single)
    );
}

#[test]
fn lists_movi_instructions() {
    let p = parsed(&program_words());
    assert_eq!(
        p.movi_instructions(),
        vec![(1, Register::ParamLo, 0xdead_beef), (2, Register::ActHi, 1)]
    );
}

#[test]
fn rejects_a_read_error() {
    let e = parse_instructions(Err("no such file".to_string()));
    match e {
        Err(e @ ParseError::Io(_)) => assert_eq!(e.to_string(), "I/O error: no such file"),
        _ => panic!("expected an I/O error"),
    }
}

#[test]
fn rejects_a_bad_header() {
    for bytes in [vec![], vec![0x80; 15], vec![0x81; 64]] {
        match parse_words(&bytes) {
            Err(e @ ParseError::InvalidHeader) => {
                assert_eq!(e.to_string(), "invalid file header")
            }
            _ => panic!("expected a header error"),
        }
    }
}

#[test]
fn rejects_a_bad_size() {
    let mut bytes = stream(&program_words());
    bytes.push(0);
    match parse_words(&bytes) {
        Err(e) => {
            assert!(matches!(e, ParseError::InvalidSize { expected: 512, got: 513 }));
            assert_eq!(e.to_string(), "invalid size: expected 512 bytes, got 513");
        }
        _ => panic!("expected a size error"),
    }
}

#[test]
fn rejects_a_missing_start_word() {
    let mut words = program_words();
    words[3][0] = 1;
    match parse_words(&stream(&words)) {
        Err(e @ ParseError::MissingStartWord) => {
            assert_eq!(e.to_string(), "missing start sentinel at word 3")
        }
        _ => panic!("expected a start word error"),
    }
    let short = stream(&[header(3), ZERO, HALT]);
    assert!(matches!(parse_words(&short), Err(ParseError::MissingStartWord)));
}

#[test]
fn rejects_a_missing_halt_word() {
    let mut words = program_words();
    words[31] = ZERO;
    match parse_words(&stream(&words)) {
        Err(e @ ParseError::MissingHaltWord) => {
            assert_eq!(e.to_string(), "missing halt word at end")
        }
        _ => panic!("expected a halt word error"),
    }
}

#[test]
fn leftover_bytes_fill_no_word() {
    let mut bytes = stream(&[header(5), ZERO, ZERO, START, HALT]);
    bytes[3] = 15;
    bytes.extend_from_slice(&[0; 12]);
    match parse_words(&bytes) {
        Ok(p) => assert_eq!(p.words.len(), 5),
        Err(e) => panic!("{}", e.to_string()),
    }
}

#[test]
fn decodes_single_words() {
    let mut fence = ZERO;
    fence[0] = 0x80;
    fence[1] = 0xf6;
    fence[3] = 0x2a;
    assert!(matches!(decode_word(0, &fence, None), Instruction::Fence { seq: 0x2a }));
    let mut pair = ZERO;
    pair[1] = 0xf9;
    assert!(matches!(decode_word(0, &pair, None), Instruction::FencePair));
    let mut tile = ZERO;
    tile[0] = 0x40;
    tile[1] = 0x19;
    assert!(matches!(
        decode_word(0, &tile, None),
        Instruction::TileConfig { multi_tile: false }
    ));
    tile[4] = 2;
    assert!(matches!(
        decode_word(0, &tile, None),
        Instruction::TileConfig { multi_tile: true }
    ));
    assert!(matches!(
        decode_word(0, &mac_ctrl(false), None),
        Instruction::MacCtrl { skeleton: OutputSkeleton::Single }
    ));
    assert!(matches!(
        decode_word(0, &mac_ctrl(true), None),
        Instruction::MacCtrl { skeleton: OutputSkeleton::Vector }
    ));
    assert!(matches!(decode_word(0, &ZERO, None), Instruction::Unknown { raw: ZERO }));
    assert!(matches!(
        decode_word(0, &movi(0x77, 3), None),
        Instruction::Movi { reg: Register::ParamLo, imm32: 3 }
    ));
}

#[test]
fn decodes_mac_configurations() {
    match decode_word(0, &mac_config(), Some(&mac_config_tail(-3))) {
        Instruction::MacConfig { slots, input_dim } => {
            assert_eq!(slots, [5, -32768, -1, 0, 7, -3, 0, 0]);
            assert_eq!(input_dim, 16);
        }
        _ => panic!("expected a MAC configuration"),
    }
    match decode_word(0, &mac_config(), None) {
        Instruction::MacConfig { slots, input_dim } => {
            assert_eq!(slots, [5, -32768, -1, 0, 0, 0, 0, 0]);
            assert_eq!(input_dim, 4);
        }
        _ => panic!("expected a MAC configuration"),
    }
    match decode_mac_config(&mac_config(), &mac_config_tail(2)) {
        Instruction::MacConfig { input_dim, .. } => assert_eq!(input_dim, 0xffff_fffc),
        _ => panic!("expected a MAC configuration"),
    }
}

#[test]
fn selects_registers() {
    assert_eq!(Register::from_byte(0x1b), Some(Register::ParamLo));
    assert_eq!(Register::from_byte(0x0b), Some(Register::ParamHi));
    assert_eq!(Register::from_byte(0x3b), Some(Register::ScratchLo));
    assert_eq!(Register::from_byte(0x2b), Some(Register::ScratchHi));
    assert_eq!(Register::from_byte(0xab), Some(Register::ActHi));
    assert_eq!(Register::from_byte(0xbb), Some(Register::ActLo));
    assert_eq!(Register::from_byte(0x4b), Some(Register::ClearHi));
    assert_eq!(Register::from_byte(0x5b), Some(Register::ClearLo));
    assert_eq!(Register::from_byte(0x00), None);
}

#[test]
fn reads_the_upper_half_of_a_word() {
    let mut w = ZERO;
    w[0] = 9;
    w[8] = 1;
    w[15] = 0x80;
    assert_eq!(word_hi64(&w), 0x8000_0000_0000_0001);
}

#[test]
fn lists_a_program() {
    let mut fence = ZERO;
    fence[0] = 0x80;
    fence[1] = 0xf6;
    fence[3] = 0x2a;
    let mut pair = ZERO;
    pair[1] = 0xf9;
    let mut tile = ZERO;
    tile[0] = 0x40;
    tile[1] = 0x19;
    let mut unknown = ZERO;
    unknown[2] = 0xab;
    let words = [
        header(13),
        movi(0x3b, 0xab),
        fence,
        START,
        pair,
        tile,
        dma(100),
        mac_config(),
        mac_config_tail(-3),
        mac_ctrl(true),
        mac_ctrl(false),
        unknown,
        HALT,
    ];
    let expected = "word 000  HEADER      n_words=13
word 001  MOVI        r_scratch_lo    imm=0x000000ab
word 002  FENCE       seq=0x2a
word 003  START
word 004  FENCE_PAIR
word 005  TILE_CFG    multi_tile=false
word 006  DMA_SIZE    generic 100 bytes
word 007  MAC_CFG     slots=[5, -32768, -1, 0, 7, -3, 0, 0]  input_dim=16
word 008  UNKNOWN  07 00 FD FF 00 00 00 00 00 00 00 00 00 00 00 00
word 009  MAC_CTRL    skeleton=Vector
word 010  MAC_CTRL    skeleton=Single
word 011  UNKNOWN  00 00 AB 00 00 00 00 00 00 00 00 00 00 00 00 00
word 012  HALT
";
    assert_eq!(parsed(&words).to_string(), expected);
    let infeed = Instruction::DmaSize { kind: DmaKind::Infeed, bytes: 16 };
    assert_eq!(infeed.line(1234), "word 1234  DMA_SIZE    infeed  16 bytes");
    assert_eq!(Register::ClearHi.to_string(), "r_clear_hi");
}
