use canopen::data_type::DataType;
use std::cmp::Ordering;
use std::collections::hash_map::DefaultHasher;
use std::hash::{Hash, Hasher};

#[test]
fn test_from_u32() {
    assert_eq!(DataType::from_u32(0x0), DataType::Unknown);
    assert_eq!(DataType::from_u32(0x1), DataType::Boolean);
    assert_eq!(DataType::from_u32(0x2), DataType::Integer8);
    assert_eq!(DataType::from_u32(0x3), DataType::Integer16);
    assert_eq!(DataType::from_u32(0x4), DataType::Integer32);
    assert_eq!(DataType::from_u32(0x5), DataType::Unsigned8);
    assert_eq!(DataType::from_u32(0x6), DataType::Unsigned16);
    assert_eq!(DataType::from_u32(0x7), DataType::Unsigned32);
    assert_eq!(DataType::from_u32(0x8), DataType::Real32);
    assert_eq!(DataType::from_u32(0x9), DataType::VisibleString);
    assert_eq!(DataType::from_u32(0xA), DataType::OctetString);
    assert_eq!(DataType::from_u32(0xB), DataType::UnicodeString);
    assert_eq!(DataType::from_u32(0xF), DataType::Domain);
    assert_eq!(DataType::from_u32(0x11), DataType::Real64);
    assert_eq!(DataType::from_u32(0x15), DataType::Integer64);
    assert_eq!(DataType::from_u32(0x1B), DataType::Unsigned64);
    assert_eq!(DataType::from_u32(0xFF), DataType::Unknown);
}

#[test]
fn test_size() {
    assert_eq!(DataType::Unknown.size(), 0);
    assert_eq!(DataType::Boolean.size(), 1);
    assert_eq!(DataType::Integer8.size(), 1);
    assert_eq!(DataType::Integer16.size(), 2);
    assert_eq!(DataType::Integer32.size(), 4);
    assert_eq!(DataType::Unsigned8.size(), 1);
    assert_eq!(DataType::Unsigned16.size(), 2);
    assert_eq!(DataType::Unsigned32.size(), 4);
    assert_eq!(DataType::Real32.size(), 4);
    assert_eq!(DataType::VisibleString.size(), 0);
    assert_eq!(DataType::OctetString.size(), 0);
    assert_eq!(DataType::UnicodeString.size(), 0);
    assert_eq!(DataType::Domain.size(), 4);
    assert_eq!(DataType::Real64.size(), 8);
    assert_eq!(DataType::Integer64.size(), 8);
    assert_eq!(DataType::Unsigned64.size(), 8);
}

#[test]
fn test_default_value() {
    assert_eq!(DataType::Unknown.default_value(), vec![0x0]);
    assert_eq!(DataType::Boolean.default_value(), vec![0x0]);
    assert_eq!(DataType::Integer8.default_value(), vec![0x0]);
    assert_eq!(DataType::Integer16.default_value(), vec![0x0, 0x0]);
    assert_eq!(DataType::Integer32.default_value(), vec![0x0, 0x0, 0x0, 0x0]);
    assert_eq!(DataType::Unsigned8.default_value(), vec![0x0]);
    assert_eq!(DataType::Unsigned16.default_value(), vec![0x0, 0x0]);
    assert_eq!(DataType::Unsigned32.default_value(), vec![0x0, 0x0, 0x0, 0x0]);
    assert_eq!(DataType::Real32.default_value(), vec![0x0, 0x0, 0x0, 0x0]);
    assert_eq!(DataType::VisibleString.default_value(), Vec::<u8>::new());
    assert_eq!(DataType::OctetString.default_value(), Vec::<u8>::new());
    assert_eq!(DataType::UnicodeString.default_value(), Vec::<u8>::new());
    assert_eq!(DataType::Domain.default_value(), vec![0x0]);
    assert_eq!(DataType::Real64.default_value(), vec![0x0; 8]);
    assert_eq!(DataType::Integer64.default_value(), vec![0x0; 8]);
    assert_eq!(DataType::Unsigned64.default_value(), vec![0x0; 8]);
}

#[test]
fn test_data_type_ordering() {
    let type1 = DataType::Boolean;
    let type2 = DataType::Integer32;

    assert!(type1 < type2);
    assert!(type2 > type1);

    assert!(type1.partial_cmp(&type2) == Some(Ordering::Less));
    assert!(type2.partial_cmp(&type1) == Some(Ordering::Greater));
}

#[test]
fn test_data_type_hash() {
    let data_type = DataType::Integer8;
    let mut hasher = DefaultHasher::new();
    data_type.hash(&mut hasher);
    let hashed = hasher.finish();
    assert_ne!(hashed, 0);

    let data_type2 = DataType::Integer16;
    let mut hasher2 = DefaultHasher::new();
    data_type2.hash(&mut hasher2);
    let hashed2 = hasher2.finish();
    assert_ne!(hashed, hashed2);
}

#[test]
fn data_type_codes_follow_the_data_sheet() {
    assert_eq!(DataType::Unsigned64.code(), 0x1B);
    assert_eq!(DataType::from_u32(DataType::Domain.code()), DataType::Domain);
}
