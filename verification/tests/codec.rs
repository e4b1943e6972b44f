use fat_fs::table::{FatType, FatValue};

const TYPES: [FatType; 3] = [FatType::Fat12, FatType::Fat16, FatType::Fat32];

#[test]
fn fat12_reserved_values_decode() {
    assert_eq!(FatValue::decode(FatType::Fat12, 0xFF7), FatValue::Bad);
    for raw in 0xFF8..=0xFFF {
        assert_eq!(FatValue::decode(FatType::Fat12, raw), FatValue::Last);
    }
    assert_eq!(FatValue::decode(FatType::Fat12, 0), FatValue::Free);
    assert_eq!(FatValue::decode(FatType::Fat12, 0xFF6), FatValue::Next(0xFF6));
    assert_eq!(FatValue::decode(FatType::Fat12, 1), FatValue::Next(1));
}

#[test]
fn fat16_reserved_values_decode() {
    assert_eq!(FatValue::decode(FatType::Fat16, 0xFFF7), FatValue::Bad);
    assert_eq!(FatValue::decode(FatType::Fat16, 0xFFF8), FatValue::Last);
    assert_eq!(FatValue::decode(FatType::Fat16, 0xFFFF), FatValue::Last);
    assert_eq!(FatValue::decode(FatType::Fat16, 0), FatValue::Free);
    assert_eq!(FatValue::decode(FatType::Fat16, 0xFF7), FatValue::Next(0xFF7));
    assert_eq!(FatValue::decode(FatType::Fat16, 0xFFF6), FatValue::Next(0xFFF6));
}

#[test]
fn fat32_reserved_values_decode() {
    assert_eq!(FatValue::decode(FatType::Fat32, 0x0FFF_FFF7), FatValue::Bad);
    assert_eq!(FatValue::decode(FatType::Fat32, 0x0FFF_FFF8), FatValue::Last);
    assert_eq!(FatValue::decode(FatType::Fat32, 0x0FFF_FFFF), FatValue::Last);
    assert_eq!(FatValue::decode(FatType::Fat32, 0), FatValue::Free);
    assert_eq!(FatValue::decode(FatType::Fat32, 0xFFF7), FatValue::Next(0xFFF7));
    assert_eq!(FatValue::decode(FatType::Fat32, 0x0FFF_FFF6), FatValue::Next(0x0FFF_FFF6));
}

#[test]
fn fat32_ignores_the_four_reserved_bits() {
    assert_eq!(FatValue::decode(FatType::Fat32, 0xF000_0000), FatValue::Free);
    assert_eq!(FatValue::decode(FatType::Fat32, 0xF000_0005), FatValue::Next(5));
    assert_eq!(FatValue::decode(FatType::Fat32, 0xFFFF_FFF7), FatValue::Bad);
    assert_eq!(FatValue::decode(FatType::Fat32, 0xFFFF_FFFF), FatValue::Last);
}

#[test]
fn last_is_stored_as_the_smallest_end_mark() {
    assert_eq!(FatValue::Last.encode(FatType::Fat12), 0xFF8);
    assert_eq!(FatValue::Last.encode(FatType::Fat16), 0xFFF8);
    assert_eq!(FatValue::Last.encode(FatType::Fat32), 0x0FFF_FFF8);
}

#[test]
fn free_and_bad_are_stored_as_their_marks() {
    for t in TYPES {
        assert_eq!(FatValue::Free.encode(t), 0);
    }
    assert_eq!(FatValue::Bad.encode(FatType::Fat12), 0xFF7);
    assert_eq!(FatValue::Bad.encode(FatType::Fat16), 0xFFF7);
    assert_eq!(FatValue::Bad.encode(FatType::Fat32), 0x0FFF_FFF7);
}

#[test]
fn a_successor_is_cut_to_the_width_of_the_entry() {
    assert_eq!(FatValue::Next(0xABCD_1234).encode(FatType::Fat12), 0x234);
    assert_eq!(FatValue::Next(0xABCD_1234).encode(FatType::Fat16), 0x1234);
    assert_eq!(FatValue::Next(0xABCD_1234).encode(FatType::Fat32), 0x0BCD_1234);
}

#[test]
fn every_variant_survives_encode_and_decode() {
    for t in TYPES {
        for v in [FatValue::Free, FatValue::Last, FatValue::Bad, FatValue::Next(2), FatValue::Next(0xFF6)] {
            assert_eq!(FatValue::decode(t, v.encode(t)), v);
        }
    }
    assert_eq!(
        FatValue::decode(FatType::Fat32, FatValue::Next(0x0FFF_FFF6).encode(FatType::Fat32)),
        FatValue::Next(0x0FFF_FFF6)
    );
}

#[test]
fn a_successor_of_zero_reads_back_as_free() {
    for t in TYPES {
        assert_eq!(FatValue::decode(t, FatValue::Next(0).encode(t)), FatValue::Free);
    }
}
