use rsqlite::{DecodeError, SerialType, SerialValue};

#[test]
fn resolve_maps_the_fixed_codes() {
    assert_eq!(SerialType::resolve(0), Ok(SerialType::Null));
    assert_eq!(SerialType::resolve(1), Ok(SerialType::I8));
    assert_eq!(SerialType::resolve(2), Ok(SerialType::I16));
    assert_eq!(SerialType::resolve(3), Ok(SerialType::I24));
    assert_eq!(SerialType::resolve(4), Ok(SerialType::I32));
    assert_eq!(SerialType::resolve(5), Ok(SerialType::I48));
    assert_eq!(SerialType::resolve(6), Ok(SerialType::I64));
    assert_eq!(SerialType::resolve(7), Ok(SerialType::Float));
    assert_eq!(SerialType::resolve(8), Ok(SerialType::Zero));
    assert_eq!(SerialType::resolve(9), Ok(SerialType::One));
    assert_eq!(SerialType::resolve(10), Ok(SerialType::Reserved));
    assert_eq!(SerialType::resolve(11), Ok(SerialType::Reserved));
}

#[test]
fn resolve_maps_blobs_and_strings() {
    assert_eq!(SerialType::resolve(12), Ok(SerialType::Blob(0)));
    assert_eq!(SerialType::resolve(13), Ok(SerialType::String(0)));
    assert_eq!(SerialType::resolve(14), Ok(SerialType::Blob(1)));
    assert_eq!(SerialType::resolve(15), Ok(SerialType::String(1)));
    assert_eq!(SerialType::resolve(27), Ok(SerialType::String(7)));
    assert_eq!(SerialType::resolve(31), Ok(SerialType::String(9)));
    assert_eq!(SerialType::resolve(391), Ok(SerialType::String(189)));
    assert_eq!(SerialType::resolve(412), Ok(SerialType::Blob(200)));
}

#[test]
fn resolve_takes_every_code_that_fits() {
    let top = usize::MAX as u64;
    assert_eq!(
        SerialType::resolve(top),
        Ok(SerialType::String(((top - 13) / 2) as usize))
    );
    assert_eq!(
        SerialType::resolve(top - 1),
        Ok(SerialType::Blob(((top - 13) / 2) as usize))
    );
}

#[test]
fn serial_type_decode_reads_one_varint() {
    assert_eq!(SerialType::decode(&[0x1b, 0x01], 0), Ok((SerialType::String(7), 1)));
    assert_eq!(SerialType::decode(&[0x1b, 0x01], 1), Ok((SerialType::I8, 2)));
    assert_eq!(SerialType::decode(&[0x83, 0x07], 0), Ok((SerialType::String(189), 2)));
    assert_eq!(SerialType::decode(&[0x83], 0), Err(DecodeError::InvalidVarint));
}

#[test]
fn widths() {
    assert_eq!(SerialType::Null.width(), 0);
    assert_eq!(SerialType::I8.width(), 1);
    assert_eq!(SerialType::I16.width(), 2);
    assert_eq!(SerialType::I24.width(), 3);
    assert_eq!(SerialType::I32.width(), 4);
    assert_eq!(SerialType::I48.width(), 6);
    assert_eq!(SerialType::I64.width(), 8);
    assert_eq!(SerialType::Float.width(), 8);
    assert_eq!(SerialType::Zero.width(), 0);
    assert_eq!(SerialType::One.width(), 0);
    assert_eq!(SerialType::Reserved.width(), 0);
    assert_eq!(SerialType::String(11).width(), 11);
    assert_eq!(SerialType::Blob(3).width(), 3);
}

#[test]
fn values_without_bytes() {
    let bytes = [0xaa, 0xbb];
    assert_eq!(SerialValue::decode(&bytes, 1, SerialType::Null), Ok((SerialValue::Null, 1)));
    assert_eq!(SerialValue::decode(&bytes, 1, SerialType::Zero), Ok((SerialValue::Number(0), 1)));
    assert_eq!(SerialValue::decode(&bytes, 1, SerialType::One), Ok((SerialValue::Number(1), 1)));
    assert_eq!(
        SerialValue::decode(&bytes, 1, SerialType::Reserved),
        Ok((SerialValue::Reserved, 1))
    );
    // At the very end of the input, too.
    assert_eq!(SerialValue::decode(&bytes, 2, SerialType::Zero), Ok((SerialValue::Number(0), 2)));
    assert_eq!(SerialValue::decode(&bytes, 2, SerialType::String(0)), Ok(("".into(), 2)));
    assert_eq!(SerialValue::decode(&bytes, 2, SerialType::Blob(0)), Ok((Vec::new().into(), 2)));
}

#[test]
fn signed_integers_are_sign_extended() {
    assert_eq!(SerialValue::decode(&[0x7f], 0, SerialType::I8), Ok((127.into(), 1)));
    assert_eq!(SerialValue::decode(&[0xff], 0, SerialType::I8), Ok(((-1).into(), 1)));
    assert_eq!(SerialValue::decode(&[0x80], 0, SerialType::I8), Ok(((-128).into(), 1)));
    assert_eq!(SerialValue::decode(&[0x13, 0x0f], 0, SerialType::I16), Ok((4879.into(), 2)));
    assert_eq!(SerialValue::decode(&[0xff, 0xfe], 0, SerialType::I16), Ok(((-2).into(), 2)));
    assert_eq!(
        SerialValue::decode(&[0x03, 0x73, 0xa2, 0xf0], 0, SerialType::I32),
        Ok((57910000.into(), 4))
    );
    assert_eq!(
        SerialValue::decode(&[0x80, 0x00, 0x00, 0x00], 0, SerialType::I32),
        Ok(((-2147483648).into(), 4))
    );
    assert_eq!(
        SerialValue::decode(&[0, 0, 0, 1, 0x0b, 0xec, 0x41, 0xc0], 0, SerialType::I64),
        Ok((4495000000.into(), 8))
    );
    assert_eq!(
        SerialValue::decode(&[0xff; 8], 0, SerialType::I64),
        Ok(((-1).into(), 8))
    );
    assert_eq!(
        SerialValue::decode(&[0x80, 0, 0, 0, 0, 0, 0, 0], 0, SerialType::I64),
        Ok((i64::MIN.into(), 8))
    );
}

#[test]
fn three_and_six_byte_integers_are_never_negative() {
    assert_eq!(
        SerialValue::decode(&[0x00, 0xc0, 0x5c], 0, SerialType::I24),
        Ok((49244.into(), 3))
    );
    assert_eq!(
        SerialValue::decode(&[0xff, 0xff, 0xff], 0, SerialType::I24),
        Ok((16777215.into(), 3))
    );
    assert_eq!(
        SerialValue::decode(&[0x80, 0x00, 0x00], 0, SerialType::I24),
        Ok((8388608.into(), 3))
    );
    assert_eq!(
        SerialValue::decode(&[0x00, 0x01, 0x0b, 0xec, 0x41, 0xc0], 0, SerialType::I48),
        Ok((4495000000.into(), 6))
    );
    assert_eq!(
        SerialValue::decode(&[0xff; 6], 0, SerialType::I48),
        Ok((281474976710655.into(), 6))
    );
}

#[test]
fn floats_keep_their_bits() {
    let bytes = 1.5f64.to_be_bytes();
    let (value, next) = SerialValue::decode(&bytes, 0, SerialType::Float).unwrap();
    assert_eq!(next, 8);
    assert_eq!(value, SerialValue::Float(0x3ff8_0000_0000_0000));
    match value {
        SerialValue::Float(bits) => assert_eq!(f64::from_bits(bits), 1.5),
        _ => panic!("not a float"),
    }
    let negative = (-2.25f64).to_be_bytes();
    assert_eq!(
        SerialValue::decode(&negative, 0, SerialType::Float),
        Ok((SerialValue::Float((-2.25f64).to_bits()), 8))
    );
}

#[test]
fn strings_and_blobs() {
    let bytes = b"xxMercuryTerrestrial";
    assert_eq!(
        SerialValue::decode(bytes, 2, SerialType::String(7)),
        Ok(("Mercury".into(), 9))
    );
    assert_eq!(
        SerialValue::decode(bytes, 9, SerialType::String(11)),
        Ok(("Terrestrial".into(), 20))
    );
    assert_eq!(
        SerialValue::decode(bytes, 2, SerialType::Blob(3)),
        Ok((vec![b'M', b'e', b'r'].into(), 5))
    );
    let accented = "é€😀".as_bytes();
    assert_eq!(
        SerialValue::decode(accented, 0, SerialType::String(accented.len())),
        Ok(("é€😀".into(), 9))
    );
}

#[test]
fn a_string_must_be_utf8() {
    assert_eq!(
        SerialValue::decode(&[0x61, 0xff, 0x62], 0, SerialType::String(3)),
        Err(DecodeError::InvalidString)
    );
    // A character cut in two.
    assert_eq!(
        SerialValue::decode("é".as_bytes(), 0, SerialType::String(1)),
        Err(DecodeError::InvalidString)
    );
    // An encoded surrogate and an overlong form.
    assert_eq!(
        SerialValue::decode(&[0xed, 0xa0, 0x80], 0, SerialType::String(3)),
        Err(DecodeError::InvalidString)
    );
    assert_eq!(
        SerialValue::decode(&[0xc0, 0x80], 0, SerialType::String(2)),
        Err(DecodeError::InvalidString)
    );
    // The same bytes are a fine blob.
    assert_eq!(
        SerialValue::decode(&[0x61, 0xff, 0x62], 0, SerialType::Blob(3)),
        Ok((vec![0x61, 0xff, 0x62].into(), 3))
    );
}

#[test]
fn a_value_needs_all_its_bytes() {
    let bytes = [1, 2, 3, 4, 5, 6, 7];
    assert_eq!(SerialValue::decode(&bytes, 7, SerialType::I8), Err(DecodeError::UnexpectedEof));
    assert_eq!(SerialValue::decode(&bytes, 6, SerialType::I16), Err(DecodeError::UnexpectedEof));
    assert_eq!(SerialValue::decode(&bytes, 5, SerialType::I24), Err(DecodeError::UnexpectedEof));
    assert_eq!(SerialValue::decode(&bytes, 4, SerialType::I32), Err(DecodeError::UnexpectedEof));
    assert_eq!(SerialValue::decode(&bytes, 2, SerialType::I48), Err(DecodeError::UnexpectedEof));
    assert_eq!(SerialValue::decode(&bytes, 0, SerialType::I64), Err(DecodeError::UnexpectedEof));
    assert_eq!(SerialValue::decode(&bytes, 0, SerialType::Float), Err(DecodeError::UnexpectedEof));
    assert_eq!(
        SerialValue::decode(&bytes, 0, SerialType::String(8)),
        Err(DecodeError::UnexpectedEof)
    );
    assert_eq!(
        SerialValue::decode(&bytes, 3, SerialType::Blob(5)),
        Err(DecodeError::UnexpectedEof)
    );
    assert_eq!(
        SerialValue::decode(&bytes, 1, SerialType::Blob(usize::MAX)),
        Err(DecodeError::UnexpectedEof)
    );
}

#[test]
fn a_value_without_bytes_is_read_anywhere() {
    let bytes = [1, 2, 3];
    assert_eq!(SerialValue::decode(&bytes, 9, SerialType::Null), Ok((SerialValue::Null, 9)));
    assert_eq!(SerialValue::decode(&bytes, 9, SerialType::One), Ok((1.into(), 9)));
    assert_eq!(SerialValue::decode(&bytes, 9, SerialType::Reserved), Ok((SerialValue::Reserved, 9)));
    assert_eq!(SerialValue::decode(&bytes, 9, SerialType::String(0)), Ok(("".into(), 9)));
    assert_eq!(SerialValue::decode(&bytes, 9, SerialType::Blob(0)), Ok((Vec::new().into(), 9)));
    assert_eq!(SerialValue::decode(&bytes, 9, SerialType::Blob(1)), Err(DecodeError::UnexpectedEof));
}

#[test]
fn values_from_plain_values() {
    assert_eq!(SerialValue::from(()), SerialValue::Null);
    assert_eq!(SerialValue::from(42i64), SerialValue::Number(42));
    assert_eq!(SerialValue::from("table"), SerialValue::String("table".to_string()));
    assert_eq!(SerialValue::from(vec![1u8, 2]), SerialValue::Blob(vec![1, 2]));
}
