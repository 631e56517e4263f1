use canopen::pdo::{pack_data, should_trigger_pdo, unpack_data};

fn cut_data_with_bits(vec: &Vec<(u64, u8)>) -> Vec<(u64, u8)> {
    let mut res: Vec<(u64, u8)> = Vec::new();
    for (data, bits) in vec {
        res.push((data & ((1 << bits) - 1), *bits));
    }
    res
}

#[test]
fn test_data_to_packet_and_packet_to_data() {
    let initial_data = vec![
        (0xABCDu64, 12),
        (0x123456u64, 20),
        (0x0102u64, 9),
    ];
    let packet = pack_data(&initial_data);

    let result_data = unpack_data(&packet, &vec![12, 20, 9]);

    let cutted_data = cut_data_with_bits(&initial_data);
    assert_eq!(result_data, cutted_data);
}

#[test]
fn pack_data_lengths_and_layout() {
    assert_eq!(pack_data(&[(0x1234, 16)]), vec![0x12, 0x34]);
    assert_eq!(pack_data(&[(0x1, 1), (0x0, 7)]), vec![0x80]);
    assert_eq!(pack_data(&[(0xF, 4), (0xFF, 4), (0x3, 2)]).len(), 2);
    assert_eq!(pack_data(&[(u64::MAX, 64)]), vec![0xFF; 8]);
    assert_eq!(pack_data(&[]), Vec::<u8>::new());
}

#[test]
fn pack_unpack_round_trip_on_full_width() {
    let pairs = vec![(0xDEADBEEFu64, 32), (0x1u64, 1), (0x7FFF_FFFFu64, 31)];
    let packet = pack_data(&pairs);
    assert_eq!(packet.len(), 8);
    assert_eq!(unpack_data(&packet, &[32, 1, 31]), cut_data_with_bits(&pairs));
}

#[test]
fn trigger_predicate() {
    assert!(should_trigger_pdo(true, false, 1, 0, 7));
    assert!(should_trigger_pdo(true, false, 3, 0, 6));
    assert!(!should_trigger_pdo(true, false, 3, 0, 7));
    assert!(!should_trigger_pdo(true, false, 0, 0, 7));
    assert!(!should_trigger_pdo(true, false, 241, 0, 241));
    assert!(should_trigger_pdo(false, true, 0, 0, 0));
    assert!(should_trigger_pdo(false, false, 0xFE, 5, 10));
    assert!(!should_trigger_pdo(false, false, 0xFE, 0, 10));
    assert!(!should_trigger_pdo(false, false, 0xFD, 5, 10));
}
