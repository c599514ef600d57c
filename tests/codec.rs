use vail::codec::Cursor;
use vail::wire::WireError;

fn encoded<T: vail::codec::WireEncode>(v: &T) -> Vec<u8> {
    let mut c = Cursor::new();
    c.serialize(v).unwrap();
    c.into_inner()
}

#[test]
fn test() {
    let s = "123";
    for i in 0..s.len() {
        let mut buf = Cursor::new();
        buf.serialize(&(s[0..(i + 1)].to_string())).unwrap();
        println!("{:?}", buf.bytes());
    }
}

#[test]
fn string_prefixes_are_padded() {
    assert_eq!(encoded(&"1".to_string()), vec![1, b'1', 0, 0]);
    assert_eq!(encoded(&"12".to_string()), vec![2, b'1', b'2', 0]);
    assert_eq!(encoded(&"123".to_string()), vec![3, b'1', b'2', b'3']);
}

#[test]
fn u32_is_little_endian() {
    assert_eq!(encoded(&0x01020304u32), vec![4, 3, 2, 1]);
}

#[test]
fn scalar_round_trips() {
    for v in [0u32, 1, 0x7fff_ffff, u32::MAX] {
        let mut c = Cursor::from_bytes(encoded(&v));
        assert_eq!(c.deserialize::<u32>(), Ok(v));
        assert_eq!(c.position(), 4);
    }
    for v in [0i32, -1, 1, i32::MIN, i32::MAX] {
        let mut c = Cursor::from_bytes(encoded(&v));
        assert_eq!(c.deserialize::<i32>(), Ok(v));
    }
    for v in [0i64, -1, 1, i64::MIN, i64::MAX] {
        let bytes = encoded(&v);
        assert_eq!(bytes.len(), 8);
        let mut c = Cursor::from_bytes(bytes);
        assert_eq!(c.deserialize::<i64>(), Ok(v));
        assert_eq!(c.position(), 8);
    }
}

#[test]
fn minus_one_is_all_ones() {
    assert_eq!(encoded(&-1i32), vec![0xff; 4]);
    assert_eq!(encoded(&-1i64), vec![0xff; 8]);
    assert_eq!(encoded(&0x0102030405060708i64), vec![8, 7, 6, 5, 4, 3, 2, 1]);
}

#[test]
fn bool_wire_ids() {
    assert_eq!(encoded(&true), vec![0xb5, 0x75, 0x72, 0x99]);
    assert_eq!(encoded(&false), vec![0x37, 0x97, 0x79, 0xbc]);
}

#[test]
fn bool_round_trip_and_lenient_decode() {
    let mut c = Cursor::from_bytes(encoded(&true));
    assert_eq!(c.deserialize::<bool>(), Ok(true));
    let mut c = Cursor::from_bytes(encoded(&false));
    assert_eq!(c.deserialize::<bool>(), Ok(false));
    let mut c = Cursor::from_bytes(vec![0, 0, 0, 0, 1, 2, 3, 4]);
    assert_eq!(c.deserialize::<bool>(), Ok(false));
    assert_eq!(c.deserialize::<bool>(), Ok(false));
    let mut c = Cursor::from_bytes(0x997275b5u32.to_le_bytes().to_vec());
    assert_eq!(c.deserialize::<bool>(), Ok(true));
}

#[test]
fn short_input_is_an_error() {
    let mut c = Cursor::from_bytes(vec![1, 2, 3]);
    assert_eq!(c.deserialize::<u32>(), Err(WireError::UnexpectedEnd));
    assert_eq!(c.position(), 0);
    let mut c = Cursor::from_bytes(vec![1, 2, 3, 4, 5, 6, 7]);
    assert_eq!(c.deserialize::<i64>(), Err(WireError::UnexpectedEnd));
    let mut c = Cursor::from_bytes(vec![5, 1, 2]);
    assert_eq!(c.deserialize_bytes(), Err(WireError::UnexpectedEnd));
    let mut c = Cursor::from_bytes(Vec::new());
    assert_eq!(c.deserialize_bytes(), Err(WireError::UnexpectedEnd));
}

#[test]
fn buffer_lengths_and_padding() {
    for (len, total) in [(0usize, 4usize), (1, 4), (253, 256), (254, 260), (255, 260), (256, 260)] {
        let payload: Vec<u8> = (0..len).map(|i| (i % 251) as u8 + 1).collect();
        let bytes = encoded(&payload);
        assert_eq!(bytes.len(), total, "length {}", len);
        assert_eq!(bytes.len() % 4, 0);
        if len < 254 {
            assert_eq!(bytes[0] as usize, len);
            assert_eq!(&bytes[1..1 + len], &payload[..]);
        } else {
            assert_eq!(&bytes[0..4], &[254, len as u8, (len >> 8) as u8, (len >> 16) as u8]);
            assert_eq!(&bytes[4..4 + len], &payload[..]);
        }
        assert!(bytes[(if len < 254 { 1 } else { 4 }) + len..].iter().all(|b| *b == 0));
        let mut c = Cursor::from_bytes(bytes);
        assert_eq!(c.deserialize_bytes(), Ok(payload));
        assert_eq!(c.position(), total);
    }
}

#[test]
fn buffer_too_long_is_refused() {
    let payload = vec![0u8; 1 << 24];
    let mut c = Cursor::new();
    assert_eq!(c.serialize(&payload), Err(WireError::TooLong));
    assert!(c.bytes().is_empty());
    let payload = vec![7u8; (1 << 24) - 1];
    assert_eq!(c.serialize(&payload), Ok(()));
    assert_eq!(&c.bytes()[0..4], &[254, 0xff, 0xff, 0xff]);
}

#[test]
fn vector_framing() {
    assert_eq!(encoded(&Vec::<i32>::new()), vec![0x15, 0xc4, 0xb5, 0x1c, 0, 0, 0, 0]);
    assert_eq!(
        encoded(&vec![5i32]),
        vec![0x15, 0xc4, 0xb5, 0x1c, 1, 0, 0, 0, 5, 0, 0, 0]
    );
    assert_eq!(
        encoded(&vec!["ab".to_string()]),
        vec![0x15, 0xc4, 0xb5, 0x1c, 1, 0, 0, 0, 2, b'a', b'b', 0]
    );
}

#[test]
fn vector_round_trips() {
    let cases: Vec<Vec<i32>> = vec![vec![], vec![42], (0..100).map(|i| i * 7 - 300).collect()];
    for items in cases {
        let bytes = encoded(&items);
        let len = bytes.len();
        let mut c = Cursor::from_bytes(bytes);
        assert_eq!(c.deserialize_vector::<i32>(), Ok(items));
        assert_eq!(c.position(), len);
    }
    let flags = vec![true, false, true];
    let mut c = Cursor::from_bytes(encoded(&flags));
    assert_eq!(c.deserialize_vector::<bool>(), Ok(flags));
    let longs = vec![i64::MIN, 0, i64::MAX];
    let mut c = Cursor::from_bytes(encoded(&longs));
    assert_eq!(c.deserialize_vector::<i64>(), Ok(longs));
}

#[test]
fn vector_with_wrong_id_is_refused() {
    let mut c = Cursor::from_bytes(vec![0, 0, 0, 0, 0, 0, 0, 0]);
    assert_eq!(c.deserialize_vector::<i32>(), Err(WireError::BadVectorId));
    assert_eq!(c.position(), 0);
    let mut c = Cursor::from_bytes(vec![0x15, 0xc4, 0xb5, 0x1c, 2, 0, 0, 0, 1, 0, 0, 0]);
    assert_eq!(c.deserialize_vector::<i32>(), Err(WireError::UnexpectedEnd));
    assert_eq!(c.position(), 0);
}

#[test]
fn values_follow_one_another() {
    let mut c = Cursor::new();
    c.serialize(&7i32).unwrap();
    c.serialize(&"hello".to_string()).unwrap();
    c.serialize(&true).unwrap();
    let mut r = Cursor::from_bytes(c.into_inner());
    assert_eq!(r.deserialize::<i32>(), Ok(7));
    assert_eq!(r.deserialize_bytes(), Ok(b"hello".to_vec()));
    assert_eq!(r.deserialize::<bool>(), Ok(true));
    assert_eq!(r.deserialize::<u32>(), Err(WireError::UnexpectedEnd));
}

#[test]
fn float_bits_round_trip() {
    for x in [0.0f32, -1.5, f32::MAX, f32::MIN_POSITIVE, f32::INFINITY] {
        let mut c = Cursor::from_bytes(encoded(&x.to_bits()));
        assert_eq!(c.deserialize::<u32>().map(f32::from_bits), Ok(x));
    }
    for x in [0.0f64, -2.25, f64::MAX, f64::NEG_INFINITY] {
        let mut c = Cursor::from_bytes(encoded(&(x.to_bits() as i64)));
        assert_eq!(c.deserialize::<i64>().map(|v| f64::from_bits(v as u64)), Ok(x));
    }
    assert_eq!(encoded(&1.0f32.to_bits()), 1.0f32.to_le_bytes().to_vec());
}

#[test]
fn boxed_values_encode_as_themselves() {
    assert_eq!(encoded(&Box::new(5i32)), encoded(&5i32));
    assert_eq!(encoded(&Box::new("abc".to_string())), encoded(&"abc".to_string()));
    assert_eq!(encoded(&vec![Box::new(true)]), encoded(&vec![true]));
}
