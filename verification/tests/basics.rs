use bitdemon_services::clock::time_between;
use bitdemon_services::octets::{
    be_u32, pad_to, push_all, push_le, read_be_u32, read_le, to_signed32,
};
use bitdemon_services::peer::{same_addr, IpAddr};
use bitdemon_services::session::TitleSet;
use bitdemon_services::text::{
    append_decimal, contains, is_at, is_prefixed, replace_all, trim,
};
use bitdemon_services::wire::{BdReadError, BdReader, BdValue};

#[test]
fn integers_as_bytes() {
    let mut out = vec![9];
    push_le(&mut out, 0x0102_0304, 4);
    assert_eq!(out, vec![9, 4, 3, 2, 1]);
    assert_eq!(read_le(&out, 1, 4), 0x0102_0304);
    assert_eq!(read_le(&out, 3, 0), 0);
    let mut out = Vec::new();
    push_le(&mut out, u64::MAX - 1, 8);
    assert_eq!(read_le(&out, 0, 8), u64::MAX - 1);
    // Bytes beyond the width are cut off.
    let mut out = Vec::new();
    push_le(&mut out, 0x1234, 1);
    assert_eq!(out, vec![0x34]);
    assert_eq!(be_u32(0x6963_B0B4), vec![0x69, 0x63, 0xB0, 0xB4]);
    assert_eq!(read_be_u32(&[0x69, 0x63, 0xB0, 0xB4, 1]), 0x6963_B0B4);
    assert_eq!(to_signed32(0x7FFF_FFFF), i32::MAX);
    assert_eq!(to_signed32(0x8000_0000), i32::MIN);
    assert_eq!(to_signed32(0xFFFF_FFFF), -1);
}

#[test]
fn byte_strings() {
    let mut out = vec![1];
    push_all(&mut out, &[2, 3]);
    assert_eq!(out, vec![1, 2, 3]);
    pad_to(&mut out, 5);
    assert_eq!(out, vec![1, 2, 3, 0, 0]);
    pad_to(&mut out, 2);
    assert_eq!(out, vec![1, 2]);
}

#[test]
fn texts() {
    let mut out = "n=".to_string();
    append_decimal(&mut out, 0);
    append_decimal(&mut out, u64::MAX);
    assert_eq!(out, "n=018446744073709551615");
    assert!(is_at("abc", "bc", 1));
    assert!(!is_at("abc", "bc", 2));
    assert!(is_at("abc", "", 3));
    assert!(is_prefixed("abc", "ab"));
    assert!(!is_prefixed("ab", "abc"));
    assert!(contains("xaby", "ab"));
    assert!(contains("x", ""));
    assert!(!contains("xa", "ab"));
    assert_eq!(replace_all("aaa", "aa", "b"), "ba");
    assert_eq!(replace_all("\u{e9}a\u{e9}", "\u{e9}", "ee"), "eeaee");
    assert_eq!(trim("\t a b\u{2003}\n"), "a b");
    assert_eq!(trim(" \u{3000} "), "");
}

#[test]
fn addresses() {
    let (a, b) = (IpAddr::V4(1), IpAddr::V4(2));
    let (c, d) = (IpAddr::V6(0), IpAddr::V6(7));
    assert!(a.is_before(&b) && !b.is_before(&a) && !a.is_before(&a));
    assert!(b.is_before(&c) && !c.is_before(&b) && c.is_before(&d));
    assert!(same_addr(None, None) && same_addr(Some(a), Some(a)));
    assert!(!same_addr(Some(a), None) && !same_addr(Some(a), Some(b)));
}

#[test]
fn times_do_not_run_backwards() {
    assert_eq!(time_between(3, 10), 7);
    assert_eq!(time_between(10, 3), 0);
}

#[test]
fn titles() {
    let titles = TitleSet::new(7, vec![8, 9]);
    assert_eq!(titles.t6_wiiu().to_u32(), 7);
    assert_eq!(titles.from_u32(7), Some(titles.t6_wiiu()));
    assert_eq!(titles.from_u32(9).map(|t| t.id), Some(9));
    assert_eq!(titles.from_u32(10), None);
}

#[test]
fn every_read_takes_one_value() {
    let mut reader = BdReader::new(
        vec![1, 2],
        vec![
            BdValue::U8(1),
            BdValue::U32(2),
            BdValue::I32(-3),
            BdValue::U64(4),
            BdValue::F32 { bits: 5 },
            BdValue::TypeChecked(false),
            BdValue::Blob(vec![6]),
            BdValue::Raw(vec![7, 7]),
            BdValue::Malformed,
        ],
    );
    assert_eq!(reader.get_buffer(), &[1, 2]);
    assert_eq!(reader.peek_u8(), Some(1));
    assert_eq!(reader.read_u8(), Ok(1));
    assert_eq!(reader.peek_u8(), None);
    assert_eq!(reader.read_u32(), Ok(2));
    assert_eq!(reader.read_i32(), Ok(-3));
    assert_eq!(reader.read_u64(), Ok(4));
    assert_eq!(reader.read_f32(), Ok(5));
    assert_eq!(reader.read_type_checked_bit(), Ok(false));
    assert_eq!(reader.read_blob(), Ok(vec![6]));
    assert_eq!(reader.read_bytes(2), Ok(vec![7, 7]));
    assert_eq!(reader.read_u8(), Err(BdReadError::UnexpectedValue));
    assert_eq!(reader.read_u8(), Err(BdReadError::EndOfMessage));
    assert_eq!(reader.get_buffer(), &[1, 2]);
}
