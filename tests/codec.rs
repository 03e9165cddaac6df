use ffi_bridge::buffer::Buffer;
use ffi_bridge::codec::{lift, lift_string, lower, lower_string, read_variant_tag, write_variant_tag, FfiConverter};
use ffi_bridge::error::InternalError;

fn encode<T: FfiConverter>(v: &T) -> Vec<u8> {
    let mut out = Vec::new();
    v.write(&mut out);
    out
}

#[test]
fn integers_are_big_endian() {
    assert_eq!(encode(&0x01020304u32), vec![1, 2, 3, 4]);
    assert_eq!(encode(&0xabu8), vec![0xab]);
    assert_eq!(encode(&0x0102u16), vec![1, 2]);
    assert_eq!(encode(&-2i16), vec![0xff, 0xfe]);
    assert_eq!(encode(&-1i8), vec![0xff]);
    assert_eq!(encode(&i64::MIN), vec![0x80, 0, 0, 0, 0, 0, 0, 0]);
    assert_eq!(encode(&u64::MAX), vec![0xff; 8]);
    assert_eq!(encode(&-1i32), vec![0xff, 0xff, 0xff, 0xff]);
}

#[test]
fn integer_round_trips() {
    for v in [i32::MIN, -1, 0, 1, 12345, i32::MAX] {
        let bytes = encode(&v);
        assert_eq!(<i32 as FfiConverter>::read(&bytes, 0), Ok((v, 4)));
        assert_eq!(v.size(), 4);
    }
    for v in [i64::MIN, -7, 0, i64::MAX] {
        let b = lower(&v);
        assert_eq!(lift::<i64>(&b), Ok(v));
    }
    for v in [0u16, 1, 0xfffe, u16::MAX] {
        assert_eq!(lift::<u16>(&lower(&v)), Ok(v));
    }
    for v in [i8::MIN, -1, 0, i8::MAX] {
        assert_eq!(lift::<i8>(&lower(&v)), Ok(v));
    }
    for v in [i16::MIN, -300, 300, i16::MAX] {
        assert_eq!(lift::<i16>(&lower(&v)), Ok(v));
    }
    for v in [0u8, 200, 255] {
        assert_eq!(lift::<u8>(&lower(&v)), Ok(v));
    }
    for v in [0u32, 70000, u32::MAX] {
        assert_eq!(lift::<u32>(&lower(&v)), Ok(v));
    }
    for v in [0u64, 1 << 40, u64::MAX] {
        assert_eq!(lift::<u64>(&lower(&v)), Ok(v));
    }
}

#[test]
fn read_at_offset_reports_bytes_consumed() {
    let mut bytes = vec![9, 9, 9];
    0x0a0bu16.write(&mut bytes);
    bytes.push(7);
    assert_eq!(bytes, vec![9, 9, 9, 0x0a, 0x0b, 7]);
    assert_eq!(<u16 as FfiConverter>::read(&bytes, 3), Ok((0x0a0b, 2)));
}

#[test]
fn truncated_integer_is_incomplete() {
    assert_eq!(<u32 as FfiConverter>::read(&[1, 2, 3], 0), Err(InternalError::IncompleteData));
    assert_eq!(<u8 as FfiConverter>::read(&[1, 2], 2), Err(InternalError::IncompleteData));
}

#[test]
fn booleans() {
    assert_eq!(encode(&true), vec![1]);
    assert_eq!(encode(&false), vec![0]);
    assert_eq!(<bool as FfiConverter>::read(&[1], 0), Ok((true, 1)));
    assert_eq!(<bool as FfiConverter>::read(&[0], 0), Ok((false, 1)));
    assert_eq!(<bool as FfiConverter>::read(&[2], 0), Err(InternalError::MalformedValue));
    assert_eq!(true.size(), 1);
}

#[test]
fn strings_are_length_prefixed_utf8() {
    let s = "h\u{e9}llo".to_string();
    let bytes = encode(&s);
    assert_eq!(bytes, vec![0, 0, 0, 6, b'h', 0xc3, 0xa9, b'l', b'l', b'o']);
    assert_eq!(s.size(), 10);
    assert_eq!(<String as FfiConverter>::read(&bytes, 0), Ok((s.clone(), 10)));
    assert_eq!(lift::<String>(&lower(&s)), Ok(s));
    let empty = String::new();
    assert_eq!(encode(&empty), vec![0, 0, 0, 0]);
    assert_eq!(lift::<String>(&lower(&empty)), Ok(empty));
}

#[test]
fn malformed_strings() {
    assert_eq!(<String as FfiConverter>::read(&[0, 0, 0, 2, 0xff, 0xfe], 0), Err(InternalError::MalformedValue));
    assert_eq!(<String as FfiConverter>::read(&[0, 0, 0, 5, b'a'], 0), Err(InternalError::IncompleteData));
    assert_eq!(<String as FfiConverter>::read(&[0, 0], 0), Err(InternalError::IncompleteData));
}

#[test]
fn whole_buffer_strings() {
    let b = lower_string("boom");
    assert_eq!(b.as_bytes(), b"boom");
    assert_eq!(lift_string(&b), Ok("boom".to_string()));
    assert_eq!(lift_string(&Buffer::from_bytes(&[0xc3])), Err(InternalError::MalformedValue));
}

#[test]
fn optionals() {
    assert_eq!(encode(&None::<u8>), vec![0]);
    assert_eq!(encode(&Some(7u8)), vec![1, 7]);
    assert_eq!(None::<u32>.size(), 1);
    assert_eq!(Some(1u32).size(), 5);
    assert_eq!(<Option<u8> as FfiConverter>::read(&[1, 7], 0), Ok((Some(7), 2)));
    assert_eq!(<Option<u8> as FfiConverter>::read(&[0], 0), Ok((None, 1)));
    assert_eq!(<Option<u8> as FfiConverter>::read(&[2, 7], 0), Err(InternalError::UnexpectedOptionalTag));
    assert_eq!(<Option<u8> as FfiConverter>::read(&[1], 0), Err(InternalError::IncompleteData));
    let v = Some("x".to_string());
    assert_eq!(lift::<Option<String>>(&lower(&v)), Ok(v));
}

#[test]
fn sequences_keep_order_and_count() {
    let v = vec![3u16, 1, 2];
    let bytes = encode(&v);
    assert_eq!(bytes, vec![0, 0, 0, 3, 0, 3, 0, 1, 0, 2]);
    assert_eq!(v.size(), 10);
    assert_eq!(<Vec<u16> as FfiConverter>::read(&bytes, 0), Ok((v.clone(), 10)));
    assert_eq!(lift::<Vec<u16>>(&lower(&v)), Ok(v));
}

#[test]
fn empty_sequence_round_trips() {
    let v: Vec<String> = Vec::new();
    assert_eq!(encode(&v), vec![0, 0, 0, 0]);
    assert_eq!(v.size(), 4);
    assert_eq!(lift::<Vec<String>>(&lower(&v)), Ok(v));
}

#[test]
fn nested_sequences() {
    let v = vec![Some(-1i32), None, Some(5)];
    let back = lift::<Vec<Option<i32>>>(&lower(&v));
    assert_eq!(back, Ok(v));
    let words = vec!["a".to_string(), "".to_string(), "\u{1f600}".to_string()];
    assert_eq!(lift::<Vec<String>>(&lower(&words)), Ok(words));
}

#[test]
fn bytes_are_a_sequence_of_u8() {
    let b = vec![0xde_u8, 0xad];
    assert_eq!(encode(&b), vec![0, 0, 0, 2, 0xde, 0xad]);
}

#[test]
fn truncated_sequence_fails() {
    assert_eq!(<Vec<u8> as FfiConverter>::read(&[0, 0, 0, 3, 1, 2], 0), Err(InternalError::IncompleteData));
}

#[test]
fn lift_rejects_trailing_bytes() {
    let b = Buffer::from_bytes(&[0, 1, 2]);
    assert_eq!(lift::<u16>(&b), Err(InternalError::MalformedValue));
}

#[test]
fn buffer_operations() {
    let b = Buffer::allocate(3);
    assert_eq!(b.as_bytes(), &[0, 0, 0]);
    assert_eq!(b.len(), 3);
    assert!(b.capacity() >= 3);
    let c = b.reserve(5);
    assert_eq!(c.capacity(), 8);
    assert_eq!(c.len(), 3);
    c.free();
    let d = Buffer::from_bytes(&[4, 5]);
    assert_eq!(d.as_bytes(), &[4, 5]);
    assert_eq!(Buffer::empty().len(), 0);
    assert_eq!(Buffer::from_vec(vec![1]).as_bytes(), &[1]);
}

#[test]
fn records_keep_field_order() {
    let r = (0x0102u16, "ok".to_string());
    assert_eq!(encode(&r), vec![1, 2, 0, 0, 0, 2, b'o', b'k']);
    assert_eq!(r.size(), 8);
    assert_eq!(lift::<(u16, String)>(&lower(&r)), Ok(r));
    assert_eq!(<(u8, u8) as FfiConverter>::read(&[1], 0), Err(InternalError::IncompleteData));
}

#[test]
fn enum_tags_count_from_one() {
    let mut out = Vec::new();
    write_variant_tag(0, &mut out);
    write_variant_tag(2, &mut out);
    assert_eq!(out, vec![0, 0, 0, 1, 0, 0, 0, 3]);
    assert_eq!(read_variant_tag(&out, 0, 3), Ok(0));
    assert_eq!(read_variant_tag(&out, 4, 3), Ok(2));
    assert_eq!(read_variant_tag(&out, 4, 2), Err(InternalError::UnexpectedEnumCase));
    assert_eq!(read_variant_tag(&[0, 0, 0, 0], 0, 2), Err(InternalError::UnexpectedEnumCase));
    assert_eq!(read_variant_tag(&[0, 0, 1], 0, 2), Err(InternalError::IncompleteData));
}
