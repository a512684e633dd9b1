use xdr_decode::de::{
    read_double_bits, read_fixed_array, read_fixed_opaque, read_float_bits, read_var_array,
    read_var_opaque, read_var_string, XDRIn,
};
use xdr_decode::error::Error;

#[test]
fn test_var_opaque_over_max() {
    let to_des: Vec<u8> = vec![0, 0, 0, 5, 3, 3, 3, 4, 1, 0, 0, 0];
    assert_eq!(Err(Error::BadArraySize), read_var_opaque(4, &to_des));
}

#[test]
fn test_var_opaque_at_max() {
    let to_des: Vec<u8> = vec![0, 0, 0, 5, 3, 3, 3, 4, 1, 0, 0, 0];
    assert_eq!(
        (vec![3, 3, 3, 4, 1], 12),
        read_var_opaque(5, &to_des).unwrap()
    );
}

#[test]
fn test_var_opaque_truncated_payload() {
    let to_des: Vec<u8> = vec![0, 0, 0, 5, 3, 3, 3];
    assert_eq!(Err(Error::BadArraySize), read_var_opaque(8, &to_des));
}

#[test]
fn test_var_array_over_max() {
    let to_des: Vec<u8> = vec![0, 0, 0, 3, 0, 0, 0, 1, 0, 0, 0, 2, 0, 0, 0, 3];
    let result: Result<(Vec<u32>, u64), Error> = read_var_array(2, &to_des);
    assert_eq!(Err(Error::BadArraySize), result);
}

#[test]
fn test_var_array_at_max() {
    let to_des: Vec<u8> = vec![0, 0, 0, 2, 0, 0, 0, 1, 0, 0, 0, 2];
    let result: (Vec<u32>, u64) = read_var_array(2, &to_des).unwrap();
    assert_eq!((vec![1, 2], 12), result);
}

#[test]
fn test_fixed_opaque_zero_size() {
    let to_des: Vec<u8> = vec![];
    assert_eq!((vec![], 0), read_fixed_opaque(0, &to_des).unwrap());
}

#[test]
fn test_fixed_array_zero_count() {
    let to_des: Vec<u8> = vec![];
    let result: (Vec<u32>, u64) = read_fixed_array(0, &to_des).unwrap();
    assert_eq!((vec![], 0), result);
}

#[test]
fn test_var_string_at_max() {
    let to_des: Vec<u8> = vec![0, 0, 0, 5, 104, 101, 108, 108, 111, 0, 0, 0];
    assert_eq!(
        ("hello".to_string(), 12),
        read_var_string(5, &to_des).unwrap()
    );
}

#[test]
fn test_string_no_padding_needed() {
    let to_des: Vec<u8> = vec![0, 0, 0, 4, 104, 105, 104, 105];
    assert_eq!(("hihi".to_string(), 8), String::read_xdr(&to_des).unwrap());
}

#[test]
fn test_string_multibyte() {
    let to_des: Vec<u8> = vec![0, 0, 0, 6, 104, 0xc3, 0xa9, 108, 108, 111, 0, 0];
    assert_eq!(
        ("h\u{e9}llo".to_string(), 12),
        String::read_xdr(&to_des).unwrap()
    );
}

#[test]
fn test_string_invalid_utf8() {
    let to_des: Vec<u8> = vec![0, 0, 0, 2, 0xff, 0xfe, 0, 0];
    assert_eq!(Err(Error::StringBadFormat), String::read_xdr(&to_des));
}

#[test]
fn test_string_truncated_payload() {
    let to_des: Vec<u8> = vec![0, 0, 0, 5, 104, 101, 108];
    assert_eq!(Err(Error::StringBadFormat), String::read_xdr(&to_des));
}

#[test]
fn test_string_missing_padding() {
    let to_des: Vec<u8> = vec![0, 0, 0, 5, 104, 101, 108, 108, 111];
    assert_eq!(Err(Error::StringBadFormat), String::read_xdr(&to_des));
}

#[test]
fn test_empty_string() {
    let to_des: Vec<u8> = vec![0, 0, 0, 0];
    assert_eq!(("".to_string(), 4), String::read_xdr(&to_des).unwrap());
}

#[test]
fn test_int_positive() {
    let to_des: Vec<u8> = vec![0x7f, 255, 255, 255];
    assert_eq!((i32::MAX, 4), i32::read_xdr(&to_des).unwrap());
}

#[test]
fn test_hyper_min() {
    let to_des: Vec<u8> = vec![0x80, 0, 0, 0, 0, 0, 0, 0];
    assert_eq!((i64::MIN, 8), i64::read_xdr(&to_des).unwrap());
}

#[test]
fn test_float_bits_value() {
    let to_des: Vec<u8> = vec![0x3f, 0x80, 0, 0];
    assert_eq!((0x3f80_0000, 4), read_float_bits(&to_des).unwrap());
}

#[test]
fn test_double_bits_value() {
    let to_des: Vec<u8> = vec![0x3f, 0xf0, 0, 0, 0, 0, 0, 1];
    assert_eq!((0x3ff0_0000_0000_0001, 8), read_double_bits(&to_des).unwrap());
}

#[test]
fn test_nested_var_array_of_strings() {
    let to_des: Vec<u8> = vec![
        0, 0, 0, 2, 0, 0, 0, 2, 104, 105, 0, 0, 0, 0, 0, 3, 121, 101, 112, 0,
    ];
    let result: (Vec<String>, u64) = Vec::read_xdr(&to_des).unwrap();
    assert_eq!((vec!["hi".to_string(), "yep".to_string()], 20), result);
}

#[test]
fn test_sequence_of_values_back_to_back() {
    let to_des: Vec<u8> = vec![0, 0, 0, 7, 255, 255, 255, 255, 255, 255, 255, 255];
    let (first, n1) = u32::read_xdr(&to_des).unwrap();
    let (second, n2) = i64::read_xdr(&to_des[n1 as usize..]).unwrap();
    assert_eq!((7, 4), (first, n1));
    assert_eq!((-1, 8), (second, n2));
    assert_eq!(to_des.len() as u64, n1 + n2);
}
