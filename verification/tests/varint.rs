use rsqlite::{DecodeError, VarInt};

#[test]
fn decode() {
    let t = vec![
        (VarInt::new(0), vec![0]), // Tiny numbers
        (VarInt::new(1), vec![1]),
        (VarInt::new(26), vec![26]),
        (VarInt::new(26), vec![26, 0, 1, 2, 3]), // Ignore trailing bytes
        (VarInt::new(127), vec![127]),           // Ignore trailing bytes
        (VarInt::new(128), vec![0x81, 0x00]),    // 2 bytes
        (VarInt::new(200), vec![0x81, 0x48]),    // 2 bytes
        (VarInt::new(9901644408), vec![0xA4, 0xF1, 0xBC, 0xB4, 0x78]),
    ];

    for (exp, buf) in t.into_iter() {
        assert_eq!(
            exp,
            VarInt::decode(&buf, 0).expect("Failed to parse into varint")
        )
    }
}

#[test]
fn encode() {
    let t = vec![
        (0, vec![0]),
        (1, vec![1]),
        (127, vec![0x7f]),
        (128, vec![0x81, 0x00]),
        (216, vec![0x81, 0x58]),
    ];

    for (num, exp) in t.into_iter() {
        assert_eq!(VarInt::encode(num), exp)
    }
}

#[test]
fn new_gives_the_width_of_the_encoding() {
    assert_eq!(VarInt::new(0), VarInt { value: 0, width: 1 });
    assert_eq!(VarInt::new(127), VarInt { value: 127, width: 1 });
    assert_eq!(VarInt::new(128), VarInt { value: 128, width: 2 });
    assert_eq!(VarInt::new(16383), VarInt { value: 16383, width: 2 });
    assert_eq!(VarInt::new(16384), VarInt { value: 16384, width: 3 });
    assert_eq!(VarInt::new((1 << 56) - 1).width, 8);
    assert_eq!(VarInt::new(1 << 56).width, 9);
    assert_eq!(VarInt::new((1 << 63) - 1).width, 9);
}

#[test]
fn encode_longer_values() {
    assert_eq!(VarInt::encode(16384), vec![0x81, 0x80, 0x00]);
    assert_eq!(VarInt::encode(9901644408), vec![0xA4, 0xF1, 0xBC, 0xB4, 0x78]);
    assert_eq!(
        VarInt::encode((1 << 63) - 1),
        vec![0xff, 0xff, 0xff, 0xff, 0xff, 0xff, 0xff, 0xff, 0x7f]
    );
    // Ten groups of seven bits from 2^63 on.
    assert_eq!(
        VarInt::encode(u64::MAX),
        vec![0x81, 0xff, 0xff, 0xff, 0xff, 0xff, 0xff, 0xff, 0xff, 0x7f]
    );
}

#[test]
fn round_trip() {
    let values: Vec<u64> = vec![
        0,
        1,
        127,
        128,
        255,
        256,
        16383,
        16384,
        2097151,
        2097152,
        9901644408,
        (1 << 49) - 1,
        1 << 49,
        (1 << 55) + 12345,
        (1 << 56) - 1,
    ];
    for v in values {
        let bytes = VarInt::encode(v);
        let decoded = VarInt::decode(&bytes, 0).unwrap();
        assert_eq!(decoded.value, v);
        assert_eq!(decoded.width as usize, bytes.len());
        assert_eq!(decoded, VarInt::new(v));
    }
}

#[test]
fn round_trip_ends_with_the_ninth_byte() {
    // From 2^56 on an encoding has a ninth byte, which holds seven bits of
    // the value and is read as eight.
    let bytes = VarInt::encode(1 << 56);
    assert_eq!(bytes, vec![0x81, 0x80, 0x80, 0x80, 0x80, 0x80, 0x80, 0x80, 0x00]);
    assert_eq!(VarInt::decode(&bytes, 0), Ok(VarInt { value: 1 << 57, width: 9 }));

    let v: u64 = (1 << 62) + 12345;
    let bytes = VarInt::encode(v);
    assert_eq!(bytes.len(), 9);
    assert_eq!(
        VarInt::decode(&bytes, 0),
        Ok(VarInt { value: (v / 128) * 256 + v % 128, width: 9 })
    );
}

#[test]
fn round_trip_inside_other_bytes() {
    let mut bytes = vec![0xff, 0xff, 0xff];
    bytes.extend(VarInt::encode(300));
    bytes.extend(vec![0x80, 0x80]);
    assert_eq!(VarInt::decode(&bytes, 3), Ok(VarInt { value: 300, width: 2 }));
}

#[test]
fn encoding_is_minimal() {
    let values: Vec<u64> = vec![128, 129, 16384, 1 << 21, 1 << 28, 1 << 35, 1 << 56, u64::MAX];
    for v in values {
        let bytes = VarInt::encode(v);
        assert!(bytes.len() > 1);
        assert!(bytes[0] > 0x80);
        assert!(bytes[bytes.len() - 1] < 0x80);
        for b in &bytes[..bytes.len() - 1] {
            assert!(*b >= 0x80);
        }
    }
    assert_eq!(VarInt::encode(127).len(), 1);
    assert_eq!(VarInt::encode(128).len(), 2);
}

#[test]
fn decode_accepts_a_padded_varint() {
    // 0x80 0x01 spells 1 in two bytes, where one would do.
    assert_eq!(VarInt::decode(&[0x80, 0x01], 0), Ok(VarInt { value: 1, width: 2 }));
    assert_eq!(VarInt::new(1).width, 1);
}

#[test]
fn ninth_byte_always_ends_a_varint() {
    // Fifty-six bits from the first eight bytes, eight from the ninth.
    let low = [0xff, 0xff, 0xff, 0xff, 0xff, 0xff, 0xff, 0xff, 0x7f, 0xaa];
    assert_eq!(
        VarInt::decode(&low, 0),
        Ok(VarInt { value: 0xffff_ffff_ffff_ff7f, width: 9 })
    );
    let high = [0xff, 0xff, 0xff, 0xff, 0xff, 0xff, 0xff, 0xff, 0xff, 0xaa];
    assert_eq!(VarInt::decode(&high, 0), Ok(VarInt { value: u64::MAX, width: 9 }));
    let zeros = [0x80, 0x80, 0x80, 0x80, 0x80, 0x80, 0x80, 0x80, 0x80, 0x01];
    assert_eq!(VarInt::decode(&zeros, 0), Ok(VarInt { value: 0x80, width: 9 }));
    let marked = [0x80, 0x80, 0x80, 0x80, 0x80, 0x80, 0x80, 0x80, 0xc1];
    assert_eq!(VarInt::decode(&marked, 0), Ok(VarInt { value: 0xc1, width: 9 }));
    let full = [0x80, 0x80, 0x80, 0x80, 0x80, 0x80, 0x80, 0x80, 0xff];
    assert_eq!(VarInt::decode(&full, 0), Ok(VarInt { value: 255, width: 9 }));
    let plain = [0x81, 0x80, 0x80, 0x80, 0x80, 0x80, 0x80, 0x80, 0x01];
    assert_eq!(
        VarInt::decode(&plain, 0),
        Ok(VarInt { value: (1 << 57) + 1, width: 9 })
    );
    let clear = [0x81, 0x80, 0x80, 0x80, 0x80, 0x80, 0x80, 0x80, 0x00];
    assert_eq!(VarInt::decode(&clear, 0), Ok(VarInt { value: 1 << 57, width: 9 }));
    let mixed = [0x80, 0x80, 0x80, 0x80, 0x80, 0x80, 0x81, 0x82, 0x03];
    assert_eq!(
        VarInt::decode(&mixed, 0),
        Ok(VarInt { value: (((1 << 7) | 2) << 8) | 3, width: 9 })
    );
}

#[test]
fn decode_fails_where_the_input_ends_first() {
    assert_eq!(VarInt::decode(&[], 0), Err(DecodeError::InvalidVarint));
    assert_eq!(VarInt::decode(&[0x81], 0), Err(DecodeError::InvalidVarint));
    assert_eq!(VarInt::decode(&[0x01], 1), Err(DecodeError::InvalidVarint));
    assert_eq!(VarInt::decode(&[0x01], 7), Err(DecodeError::InvalidVarint));
    assert_eq!(
        VarInt::decode(&[0x80, 0x80, 0x80, 0x80, 0x80, 0x80, 0x80, 0x80], 0),
        Err(DecodeError::InvalidVarint)
    );
}

#[test]
fn decode_at_an_offset() {
    let bytes = [0x05, 0x81, 0x48, 0x07];
    assert_eq!(VarInt::decode(&bytes, 0), Ok(VarInt { value: 5, width: 1 }));
    assert_eq!(VarInt::decode(&bytes, 1), Ok(VarInt { value: 200, width: 2 }));
    assert_eq!(VarInt::decode(&bytes, 2), Ok(VarInt { value: 0x48, width: 1 }));
    assert_eq!(VarInt::decode(&bytes, 3), Ok(VarInt { value: 7, width: 1 }));
}
