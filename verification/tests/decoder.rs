use rum::fault::Fault;
use rum::rumdecoder::{get, mask, op, ra, rb, rc, rl, vl, Field, Opcode};

#[test]
fn mask_has_low_bits_set() {
    assert_eq!(mask(0), 0);
    assert_eq!(mask(1), 1);
    assert_eq!(mask(3), 7);
    assert_eq!(mask(4), 15);
    assert_eq!(mask(25), 0x1FF_FFFF);
    assert_eq!(mask(31), 0x7FFF_FFFF);
}

#[test]
fn named_fields_have_documented_layout() {
    assert_eq!(ra(), Field { width: 3, lsb: 6 });
    assert_eq!(rb(), Field { width: 3, lsb: 3 });
    assert_eq!(rc(), Field { width: 3, lsb: 0 });
    assert_eq!(rl(), Field { width: 3, lsb: 25 });
    assert_eq!(vl(), Field { width: 25, lsb: 0 });
    assert_eq!(op(), Field { width: 4, lsb: 28 });
}

#[test]
fn get_extracts_each_field() {
    // opcode 3, A = 5, B = 2, C = 7
    let word: u32 = (3 << 28) | (5 << 6) | (2 << 3) | 7;
    assert_eq!(get(&op(), word), 3);
    assert_eq!(get(&ra(), word), 5);
    assert_eq!(get(&rb(), word), 2);
    assert_eq!(get(&rc(), word), 7);
}

#[test]
fn get_extracts_load_value_fields() {
    let word: u32 = 0xD200_0041;
    assert_eq!(get(&op(), word), 13);
    assert_eq!(get(&rl(), word), 1);
    assert_eq!(get(&vl(), word), 0x41);
    let word: u32 = (13 << 28) | (7 << 25) | 0x1FF_FFFF;
    assert_eq!(get(&rl(), word), 7);
    assert_eq!(get(&vl(), word), 0x1FF_FFFF);
}

#[test]
fn get_is_shift_then_mask() {
    let field = Field { width: 8, lsb: 12 };
    assert_eq!(get(&field, 0xABCD_EF12), 0xDE);
    assert_eq!(get(&field, 0xFFFF_FFFF), 0xFF);
    assert_eq!(get(&field, 0), 0);
    let top = Field { width: 1, lsb: 31 };
    assert_eq!(get(&top, 0x8000_0000), 1);
    assert_eq!(get(&top, 0x7FFF_FFFF), 0);
    let none = Field { width: 0, lsb: 5 };
    assert_eq!(get(&none, 0xFFFF_FFFF), 0);
}

#[test]
fn get_agrees_with_division_and_remainder() {
    let words = [0u32, 1, 0x41, 0xD200_0041, 0xDEAD_BEEF, 0xFFFF_FFFF];
    for word in words {
        for lsb in 0..32u32 {
            for width in 0..32u32 {
                let field = Field { width, lsb };
                let expected = ((word as u64) >> lsb) % (1u64 << width);
                assert_eq!(get(&field, word) as u64, expected);
            }
        }
    }
}

#[test]
fn opcode_numbers_decode_in_order() {
    let expected = [
        Opcode::CMov,
        Opcode::SegLoad,
        Opcode::SegStore,
        Opcode::Add,
        Opcode::Mul,
        Opcode::Div,
        Opcode::BNand,
        Opcode::Halt,
        Opcode::MapSeg,
        Opcode::UnmapSeg,
        Opcode::Output,
        Opcode::Input,
        Opcode::LoadProg,
        Opcode::LoadVal,
    ];
    for (number, opcode) in expected.iter().enumerate() {
        assert_eq!(Opcode::from(number as u32), Ok(*opcode));
    }
}

#[test]
fn opcode_numbers_above_thirteen_are_invalid() {
    assert_eq!(Opcode::from(14), Err(Fault::InvalidOpcode));
    assert_eq!(Opcode::from(15), Err(Fault::InvalidOpcode));
    assert_eq!(Opcode::from(16), Err(Fault::InvalidOpcode));
    assert_eq!(Opcode::from(u32::MAX), Err(Fault::InvalidOpcode));
}
