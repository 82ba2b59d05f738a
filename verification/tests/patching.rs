use reef_infer::model::{ChunkInfo, Description, OffsetInfo, Position};
use reef_infer::patch::{check_fields, copy_u32_bits, patch_chunk, patch_field, StringHashMap};

fn field(offset_bit: i32, desc: Description, position: Position, name: &str) -> OffsetInfo {
    OffsetInfo { offset_bit, desc, position, name: name.to_string() }
}

fn no_outputs() -> StringHashMap<u64> {
    StringHashMap::new()
}

#[test]
fn copies_bits_at_a_byte_boundary() {
    let mut buf = [0u8; 6];
    copy_u32_bits(&mut buf, 8, 0x1234_5678);
    assert_eq!(buf, [0, 0x78, 0x56, 0x34, 0x12, 0]);
}

#[test]
fn copies_bits_across_byte_boundaries() {
    let mut buf = [0xffu8; 5];
    copy_u32_bits(&mut buf, 4, 0);
    assert_eq!(buf, [0x0f, 0, 0, 0, 0xf0]);
    copy_u32_bits(&mut buf, 4, 0x8000_0001);
    assert_eq!(buf, [0x1f, 0, 0, 0, 0xf8]);
}

#[test]
fn patches_either_half_of_an_address() {
    let mut buf = [0u8; 4];
    patch_field(&mut buf, 0, 0, 0x1122_3344_5566_7788);
    assert_eq!(buf, [0x88, 0x77, 0x66, 0x55]);
    patch_field(&mut buf, 0, 1, 0x1122_3344_5566_7788);
    assert_eq!(buf, [0x44, 0x33, 0x22, 0x11]);
}

#[test]
fn both_halves_hold_the_address_in_either_order() {
    let mut a = [0xffu8; 10];
    patch_field(&mut a, 4, 0, 0x1122_3344_5566_7788);
    patch_field(&mut a, 36, 1, 0x1122_3344_5566_7788);
    let mut b = [0xffu8; 10];
    patch_field(&mut b, 36, 200, 0x1122_3344_5566_7788);
    patch_field(&mut b, 4, 0, 0x1122_3344_5566_7788);
    assert_eq!(a, b);
    assert_eq!(a, [0x8f, 0x78, 0x67, 0x56, 0x45, 0x34, 0x23, 0x12, 0xf1, 0xff]);
}

#[test]
fn patches_every_kind_of_field() {
    let chunk = ChunkInfo {
        bitstream: vec![0xaa; 32],
        field_offsets: vec![
            field(0, Description::BaseAddressParameter, Position::Lower32Bit, ""),
            field(32, Description::BaseAddressParameter, Position::Upper32Bit, ""),
            field(64, Description::BaseAddressInputActivation, Position::Lower32Bit, "in"),
            field(96, Description::BaseAddressOutputActivation, Position::Lower32Bit, "out"),
            field(128, Description::BaseAddressOutputActivation, Position::Lower32Bit, "other"),
            field(160, Description::BaseAddressScratch, Position::Lower32Bit, ""),
            field(192, Description::Other(9), Position::Other(5), ""),
        ],
    };
    assert!(check_fields(&chunk));
    let mut outputs = no_outputs();
    outputs.insert("out".to_string(), 0x0708);
    let r = patch_chunk(&chunk, 0x0001_0002_0003_0004, 0x0506, &outputs);
    let words: Vec<u32> =
        r.chunks(4).map(|b| u32::from_le_bytes([b[0], b[1], b[2], b[3]])).collect();
    assert_eq!(words, vec![0x0003_0004, 0x0001_0002, 0x0506, 0x0708, 0, 0, 0, 0xaaaa_aaaa]);
}

#[test]
fn later_fields_win_and_other_bits_stay() {
    let chunk = ChunkInfo {
        bitstream: vec![0xff; 8],
        field_offsets: vec![
            field(0, Description::BaseAddressParameter, Position::Lower32Bit, ""),
            field(16, Description::BaseAddressInputActivation, Position::Lower32Bit, ""),
        ],
    };
    let r = patch_chunk(&chunk, 0x1111_2222, 0x3333_4444, &no_outputs());
    assert_eq!(r, vec![0x22, 0x22, 0x44, 0x44, 0x33, 0x33, 0xff, 0xff]);
}

#[test]
fn patching_again_forgets_the_first_addresses() {
    let fields = || vec![field(8, Description::BaseAddressParameter, Position::Lower32Bit, "")];
    let chunk = ChunkInfo { bitstream: vec![1, 2, 3, 4, 5, 6], field_offsets: fields() };
    let once = patch_chunk(&chunk, 0xdead_beef, 0, &no_outputs());
    let again = ChunkInfo { bitstream: once, field_offsets: fields() };
    let twice = patch_chunk(&again, 0x0403_0201, 0, &no_outputs());
    assert_eq!(twice, patch_chunk(&chunk, 0x0403_0201, 0, &no_outputs()));
    assert_eq!(twice, vec![1, 1, 2, 3, 4, 6]);
}

#[test]
fn checks_that_fields_fit() {
    let chunk = |offset: i32| ChunkInfo {
        bitstream: vec![0; 8],
        field_offsets: vec![field(
            offset,
            Description::BaseAddressParameter,
            Position::Lower32Bit,
            "",
        )],
    };
    assert!(check_fields(&chunk(0)));
    assert!(check_fields(&chunk(32)));
    assert!(!check_fields(&chunk(33)));
    assert!(!check_fields(&chunk(-1)));
    assert!(check_fields(&ChunkInfo { bitstream: vec![], field_offsets: vec![] }));
}
