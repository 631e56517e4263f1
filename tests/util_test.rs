use canopen::error::{AbortCode, ErrorCode};
use canopen::util::{
    convert_bytes_to_u32, create_frame, get_index_from_can_frame, create_frame_with_padding, crc16_canopen_with_lut, flatten,
    is_name, is_sub, is_top, make_abort_error, parse_number, result_to_option, u64_to_vec,
    vec_to_u64,
};

#[test]
fn test_create_frame_success() {
    let cob_id = 0x123;
    let data = &[0x01, 0x02, 0x03];
    let result = create_frame(cob_id, data);
    assert!(result.is_ok());
}

#[test]
fn test_create_frame_invalid_standard_id() {
    let cob_id = 0x1FFF;
    let data = &[0x01, 0x02, 0x03];
    let result = create_frame(cob_id, data);
    assert!(matches!(result, Err(ErrorCode::InvalidStandardId { cob_id: _ })));
}

#[test]
fn create_frame_refuses_more_than_eight_bytes() {
    let data = &[1u8, 2, 3, 4, 5, 6, 7, 8, 9];
    match create_frame(0x123, data) {
        Err(ErrorCode::FrameCreationFailed { data: returned_data }) => {
            assert_eq!(returned_data, data.to_vec());
        },
        other => panic!("expected FrameCreationFailed, got {:?}", other),
    }
}

#[test]
fn create_frame_with_padding_fits_eight_bytes() {
    let f = create_frame_with_padding(0x582, &[0x60, 0x17]).unwrap();
    assert_eq!(f.cob_id, 0x582);
    assert_eq!(f.data, vec![0x60, 0x17, 0, 0, 0, 0, 0, 0]);
    let g = create_frame_with_padding(0x582, &[1, 2, 3, 4, 5, 6, 7, 8, 9, 10]).unwrap();
    assert_eq!(g.data, vec![1, 2, 3, 4, 5, 6, 7, 8]);
}

#[test]
fn test_basic() {
    assert_eq!(u64_to_vec(0x123456789ABCDEF0, 8),
               vec![0x12, 0x34, 0x56, 0x78, 0x9A, 0xBC, 0xDE, 0xF0]);
    assert_eq!(u64_to_vec(0x01, 2), vec![0x0, 0x1]);
    assert_eq!(u64_to_vec(0x8002, 2), vec![0x80, 0x02]);
}

#[test]
fn test_byte_length_exceeds_limit() {
    assert_eq!(u64_to_vec(0x01, 9), vec![0, 0, 0, 0, 0, 0, 0, 1]);
    assert_eq!(u64_to_vec(0x123456789ABCDEF0, 10), vec![0x12, 0x34, 0x56, 0x78, 0x9A, 0xBC, 0xDE, 0xF0]);
}

#[test]
fn test_boundary_conditions() {
    assert_eq!(u64_to_vec(0x123456789ABCDEF0, 0), Vec::<u8>::new());
    assert_eq!(u64_to_vec(0x123456789ABCDEF0, 3), vec![0xBC, 0xDE, 0xF0]);
    assert_eq!(u64_to_vec(0x123456789ABCDEF0, 8), vec![0x12, 0x34, 0x56, 0x78, 0x9A, 0xBC, 0xDE, 0xF0]);
}

#[test]
fn test_special_values() {
    assert_eq!(u64_to_vec(0, 8), vec![0, 0, 0, 0, 0, 0, 0, 0]);
    assert_eq!(u64_to_vec(u64::MAX, 8), vec![0xFF, 0xFF, 0xFF, 0xFF, 0xFF, 0xFF, 0xFF, 0xFF]);
}

#[test]
fn test_empty_vector() {
    assert_eq!(vec_to_u64(&vec![]), 0);
}

#[test]
fn test_full_length_vector() {
    assert_eq!(vec_to_u64(&vec![0x01, 0x02, 0x03, 0x04, 0x05, 0x06, 0x07, 0x08]),
               0x0102030405060708);
}

#[test]
fn test_partial_length_vector() {
    assert_eq!(vec_to_u64(&vec![0x01, 0x02, 0x03]), 0x010203);
}

#[test]
fn test_max_value_vector() {
    assert_eq!(vec_to_u64(&vec![0xFF; 8]), 0xFFFFFFFFFFFFFFFF);
}

#[test]
fn test_single_element_vector() {
    assert_eq!(vec_to_u64(&vec![0x01]), 0x01);
}

#[test]
fn test_long_vector() {
    assert_eq!(vec_to_u64(&vec![0x01, 0x02, 0x03, 0x04, 0x05, 0x06, 0x07, 0x08, 0x09, 0x0A]),
               0x0102030405060708);
}

#[test]
fn test_parse_number_i8() {
    assert_eq!(parse_number::<i8>("0xFF"), -1);
    assert_eq!(parse_number::<i8>("0x7F"), 127);
    assert_eq!(parse_number::<i8>("-128"), -128);
    assert_eq!(parse_number::<i8>("0"), 0);
    assert_eq!(parse_number::<i8>("0xAB"), -85);
    assert_eq!(parse_number::<i8>("abc"), 0);
}

#[test]
fn test_parse_number_u8() {
    assert_eq!(parse_number::<u8>("0xFF"), 255);
    assert_eq!(parse_number::<u8>("0"), 0);
    assert_eq!(parse_number::<u8>("255"), 255);
    assert_eq!(parse_number::<u8>("abc"), 0);
}

#[test]
fn test_parse_number_i32() {
    assert_eq!(parse_number::<i32>("0x7FFFFFFF"), 2_147_483_647);
    assert_eq!(parse_number::<i32>("-2147483648"), -2_147_483_648);
    assert_eq!(parse_number::<i32>("0"), 0);
    assert_eq!(parse_number::<i32>("abc"), 0);
}

#[test]
fn test_parse_number_u32() {
    assert_eq!(parse_number::<u32>("0xFFFFFFFF"), 4_294_967_295);
    assert_eq!(parse_number::<u32>("0"), 0);
    assert_eq!(parse_number::<u32>("4294967295"), 4_294_967_295);
    assert_eq!(parse_number::<u32>("abc"), 0);
}

#[test]
fn parse_number_edges() {
    assert_eq!(parse_number::<u8>("256"), 0);
    assert_eq!(parse_number::<u16>("0X1A"), 0x1A);
    assert_eq!(parse_number::<u64>("0xFFFFFFFFFFFFFFFF"), u64::MAX);
    assert_eq!(parse_number::<i64>("-9223372036854775799"), -9223372036854775799);
    assert_eq!(parse_number::<i16>("0x8000"), i16::MIN);
    assert_eq!(parse_number::<u32>(""), 0);
    assert_eq!(parse_number::<u32>("+7"), 7);
}

#[test]
fn test_crc16_ccitt() {
    let s = "CANopenDemoPIC32";
    let crc = crc16_canopen_with_lut(s.as_bytes());
    assert_eq!(crc, 0x43F3, "({:x} != 0x43F3)", crc);
}

#[test]
fn crc16_of_nothing_is_zero() {
    assert_eq!(crc16_canopen_with_lut(&[]), 0);
    assert_eq!(crc16_canopen_with_lut(&[0, 0]), 0);
    assert_eq!(crc16_canopen_with_lut(b"123456789"), 0x31C3);
}

#[test]
fn section_names_classify() {
    assert!(is_top("1A00"));
    assert!(!is_top("1A0"));
    assert!(!is_top("1G00"));
    assert_eq!(is_sub("1018sub1"), Some((0x1018, 1)));
    assert_eq!(is_sub("3010Sub0"), Some((0x3010, 0)));
    assert_eq!(is_sub("3010sub"), None);
    assert_eq!(is_sub("3010sub300"), None);
    assert_eq!(is_name("3004Name"), Some(0x3004));
    assert_eq!(is_name("Name"), None);
}

#[test]
fn byte_helpers() {
    let joined = flatten(&[&[0x40], &[0x17, 0x10], &[0x00], &[1, 2, 3, 4, 5, 6]]);
    assert_eq!(joined, vec![0x40, 0x17, 0x10, 0x00, 1, 2, 3, 4]);
    assert_eq!(flatten(&[&[1]]), vec![1, 0, 0, 0, 0, 0, 0, 0]);
    assert_eq!(convert_bytes_to_u32(&[0x78, 0x56, 0x34, 0x12]), Ok(0x12345678));
    assert!(matches!(
        convert_bytes_to_u32(&[1, 2, 3]),
        Err(ErrorCode::AbortCodeWrapper { abort_code: AbortCode::GeneralError, .. })
    ));
    assert_eq!(result_to_option::<u8, ()>(Ok(3)), Some(3));
    assert_eq!(result_to_option::<u8, ()>(Err(())), None);
    assert_eq!(
        make_abort_error(AbortCode::CRCError, String::from("x")),
        ErrorCode::AbortCodeWrapper { abort_code: AbortCode::CRCError, more_info: String::from("x") }
    );
}

#[test]
fn sdo_request_addresses() {
    let f = create_frame(0x602, &[0x40, 0x17, 0x10, 0x02, 0, 0, 0, 0]).unwrap();
    assert_eq!(get_index_from_can_frame(&f), (0x1017, 2));
}
