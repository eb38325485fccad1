use bin_buffer::{Bufferable, Float32, Float64, ReadBuffer};

#[test]
fn round_trip_leaves_the_reader_at_the_end() {
    let mut buffer = Vec::new();
    0x1122334455667788u64.into_buffer(&mut buffer);
    let mut reader = ReadBuffer::from_raw(buffer);
    assert_eq!(u64::from_buffer(&mut reader), Some(0x1122334455667788));
    assert_eq!(u8::from_buffer(&mut reader), None);

    let mut buffer = Vec::new();
    let value = vec![(String::from("k"), 1u32), (String::from("longer key"), u32::MAX)];
    value.copy_into_buffer(&mut buffer);
    let mut reader = ReadBuffer::from_raw(buffer);
    assert_eq!(Vec::<(String, u32)>::from_buffer(&mut reader), Some(value));
    assert_eq!(u8::from_buffer(&mut reader), None);
}

#[test]
fn round_trip_within_a_larger_stream() {
    let mut buffer = vec![0xaau8];
    let value = (String::from("inner"), vec![1u8, 2, 3]);
    value.copy_into_buffer(&mut buffer);
    buffer.push(0xbb);
    let mut reader = ReadBuffer::from_raw(buffer);
    assert_eq!(u8::from_buffer(&mut reader), Some(0xaa));
    assert_eq!(<(String, Vec<u8>)>::from_buffer(&mut reader), Some(value));
    assert_eq!(u8::from_buffer(&mut reader), Some(0xbb));
    assert_eq!(u8::from_buffer(&mut reader), None);
}

#[test]
fn boundary_values_of_u8() {
    for x in [0u8, 1, 0x7f, 0x80, u8::MAX] {
        let mut buffer = Vec::new();
        x.into_buffer(&mut buffer);
        assert_eq!(buffer.len(), 1);
        let mut reader = ReadBuffer::from_raw(buffer);
        assert_eq!(u8::from_buffer(&mut reader), Some(x));
    }
}

#[test]
fn boundary_values_of_u16() {
    for x in [0u16, 1, 0xff, 0x100, 0x7fff, 0x8000, u16::MAX] {
        let mut buffer = Vec::new();
        x.into_buffer(&mut buffer);
        assert_eq!(buffer.len(), 2);
        let mut reader = ReadBuffer::from_raw(buffer);
        assert_eq!(u16::from_buffer(&mut reader), Some(x));
    }
}

#[test]
fn boundary_values_of_u32() {
    for x in [0u32, 1, 0xffff, 0x1_0000, 0x7fff_ffff, 0x8000_0000, u32::MAX] {
        let mut buffer = Vec::new();
        x.into_buffer(&mut buffer);
        assert_eq!(buffer.len(), 4);
        let mut reader = ReadBuffer::from_raw(buffer);
        assert_eq!(u32::from_buffer(&mut reader), Some(x));
    }
}

#[test]
fn boundary_values_of_u64() {
    for x in [0u64, 1, 0xffff_ffff, 0x1_0000_0000, 0x7fff_ffff_ffff_ffff, 1 << 63, u64::MAX] {
        let mut buffer = Vec::new();
        x.into_buffer(&mut buffer);
        assert_eq!(buffer.len(), 8);
        let mut reader = ReadBuffer::from_raw(buffer);
        assert_eq!(u64::from_buffer(&mut reader), Some(x));
    }
    let mut buffer = Vec::new();
    u64::MAX.into_buffer(&mut buffer);
    assert_eq!(buffer, vec![0xff; 8]);
    assert_eq!(u64::MAX, 18446744073709551615);
}

#[test]
fn floats_round_trip_exactly() {
    for x in
        [0.0f64, -0.0, 1.001, -12345.4321, f64::MIN, f64::MAX, f64::MIN_POSITIVE, f64::INFINITY]
    {
        let mut buffer = Vec::new();
        Float64::from_bits(x.to_bits()).into_buffer(&mut buffer);
        let mut reader = ReadBuffer::from_raw(buffer);
        let y = Float64::from_buffer(&mut reader).unwrap();
        assert_eq!(y.to_bits(), x.to_bits());
        assert_eq!(f64::from_bits(y.to_bits()), x);
    }
    for x in [0.0f32, -0.0, 1.001, -5.5, f32::MIN, f32::MAX, f32::NEG_INFINITY] {
        let mut buffer = Vec::new();
        Float32::from_bits(x.to_bits()).copy_into_buffer(&mut buffer);
        let mut reader = ReadBuffer::from_raw(buffer);
        let y = Float32::from_buffer(&mut reader).unwrap();
        assert_eq!(y.to_bits(), x.to_bits());
        assert_eq!(f32::from_bits(y.to_bits()), x);
    }
}

#[test]
fn three_floats_round_trip_as_a_sequence() {
    let x = vec![1.0f32, 2.0f32, 3.0f32];
    let bits: Vec<Float32> = x.iter().map(|f| Float32::from_bits(f.to_bits())).collect();
    let mut buffer = Vec::new();
    bits.into_buffer(&mut buffer);
    assert_eq!(buffer.len(), 8 + 3 * 4);
    let mut reader = ReadBuffer::from_raw(buffer);
    let y = Vec::<Float32>::from_buffer(&mut reader).unwrap();
    let y: Vec<f32> = y.iter().map(|b| f32::from_bits(b.to_bits())).collect();
    assert_eq!(y, x);
}

#[test]
fn truncated_integers_are_absent_and_consume_nothing() {
    let mut reader = ReadBuffer::from_raw(vec![1, 2, 3, 4, 5, 6, 7]);
    assert_eq!(u64::from_buffer(&mut reader), None);
    assert_eq!(Float64::from_buffer(&mut reader), None);
    assert_eq!(u32::from_buffer(&mut reader), Some(0x01020304));
    assert_eq!(u32::from_buffer(&mut reader), None);
    assert_eq!(Float32::from_buffer(&mut reader), None);
    assert_eq!(u16::from_buffer(&mut reader), Some(0x0506));
    assert_eq!(u16::from_buffer(&mut reader), None);
    assert_eq!(u8::from_buffer(&mut reader), Some(7));
    assert_eq!(u8::from_buffer(&mut reader), None);
    assert_eq!(reader.into_raw(), vec![1, 2, 3, 4, 5, 6, 7]);
}

#[test]
fn nothing_decodes_from_an_empty_buffer() {
    let mut reader = ReadBuffer::from_raw(Vec::new());
    assert_eq!(u8::from_buffer(&mut reader), None);
    assert_eq!(u16::from_buffer(&mut reader), None);
    assert_eq!(u32::from_buffer(&mut reader), None);
    assert_eq!(u64::from_buffer(&mut reader), None);
    assert_eq!(Float32::from_buffer(&mut reader), None);
    assert_eq!(Float64::from_buffer(&mut reader), None);
    assert_eq!(String::from_buffer(&mut reader), None);
    assert_eq!(Vec::<u8>::from_buffer(&mut reader), None);
    assert_eq!(<(u8, u8)>::from_buffer(&mut reader), None);
    assert_eq!(<(u8, u8, u8)>::from_buffer(&mut reader), None);
    assert_eq!(reader.into_raw(), Vec::<u8>::new());
}

#[test]
fn every_proper_prefix_of_an_encoding_is_absent() {
    let value = (String::from("caf\u{e9}"), vec![0x0102u16, 0x0304], 9u32);
    let mut whole = Vec::new();
    value.copy_into_buffer(&mut whole);
    for n in 0..whole.len() {
        let cut = whole[..n].to_vec();
        let mut reader = ReadBuffer::from_raw(cut.clone());
        assert_eq!(<(String, Vec<u16>, u32)>::from_buffer(&mut reader), None);
        assert_eq!(reader.into_raw(), cut);
    }
    let mut reader = ReadBuffer::from_raw(whole);
    assert_eq!(<(String, Vec<u16>, u32)>::from_buffer(&mut reader), Some(value));
}

#[test]
fn three_values_then_exhausted() {
    let v1 = 0xbeefu16;
    let v2 = String::from("middle");
    let v3 = vec![10u64, 20, 30];
    let mut buffer = Vec::new();
    v1.into_buffer(&mut buffer);
    v2.copy_into_buffer(&mut buffer);
    v3.copy_into_buffer(&mut buffer);
    let mut reader = ReadBuffer::from_raw(buffer);
    assert_eq!(u16::from_buffer(&mut reader), Some(v1));
    assert_eq!(String::from_buffer(&mut reader), Some(v2));
    assert_eq!(Vec::<u64>::from_buffer(&mut reader), Some(v3));
    assert_eq!(u8::from_buffer(&mut reader), None);
    assert_eq!(String::from_buffer(&mut reader), None);
    assert_eq!(Vec::<u8>::from_buffer(&mut reader), None);
    assert_eq!(<(u8, u16)>::from_buffer(&mut reader), None);
}

#[test]
fn text_that_is_not_utf8_is_absent() {
    let mut reader = ReadBuffer::from_raw(vec![0, 0, 0, 0, 0, 0, 0, 2, 0xff, 0xfe]);
    assert_eq!(String::from_buffer(&mut reader), None);

    let mut reader = ReadBuffer::from_raw(vec![0, 0, 0, 0, 0, 0, 0, 2, 0xc3, 0x28, b'a']);
    assert_eq!(String::from_buffer(&mut reader), None);

    let mut reader = ReadBuffer::from_raw(vec![0, 0, 0, 0, 0, 0, 0, 3, 0xed, 0xa0, 0x80]);
    assert_eq!(String::from_buffer(&mut reader), None);

    let mut reader = ReadBuffer::from_raw(vec![0, 0, 0, 0, 0, 0, 0, 1, 0xc3, 0xa9]);
    assert_eq!(String::from_buffer(&mut reader), None);
}

#[test]
fn text_shorter_than_declared_is_absent() {
    let mut reader = ReadBuffer::from_raw(vec![0, 0, 0, 0, 0, 0, 0, 3, b'a', b'b']);
    assert_eq!(String::from_buffer(&mut reader), None);

    let mut reader = ReadBuffer::from_raw(vec![0xff; 12]);
    assert_eq!(String::from_buffer(&mut reader), None);
}

#[test]
fn failed_text_is_not_rolled_back() {
    let mut reader = ReadBuffer::from_raw(vec![0, 0, 0, 0, 0, 0, 0, 5, 7, 8]);
    assert_eq!(String::from_buffer(&mut reader), None);
    assert_eq!(u8::from_buffer(&mut reader), Some(7));

    let mut reader = ReadBuffer::from_raw(vec![0, 0, 0, 0, 0, 0, 0, 1, 0xff, 9]);
    assert_eq!(String::from_buffer(&mut reader), None);
    assert_eq!(u8::from_buffer(&mut reader), Some(9));

    let mut reader = ReadBuffer::from_raw(vec![0, 0, 0, 5]);
    assert_eq!(String::from_buffer(&mut reader), None);
    assert_eq!(u32::from_buffer(&mut reader), Some(5));
}

#[test]
fn sequence_with_a_missing_item_is_absent() {
    let mut reader = ReadBuffer::from_raw(vec![0, 0, 0, 0, 0, 0, 0, 3, 0, 1, 0, 2, 0]);
    assert_eq!(Vec::<u16>::from_buffer(&mut reader), None);
    assert_eq!(u8::from_buffer(&mut reader), Some(0));
    assert_eq!(u8::from_buffer(&mut reader), None);

    let mut reader = ReadBuffer::from_raw(vec![0xff; 16]);
    assert_eq!(Vec::<u64>::from_buffer(&mut reader), None);
    assert_eq!(u8::from_buffer(&mut reader), None);
}

#[test]
fn tuple_with_a_missing_component_is_absent() {
    let mut reader = ReadBuffer::from_raw(vec![1, 2, 3]);
    assert_eq!(<(u16, u16)>::from_buffer(&mut reader), None);
    assert_eq!(u8::from_buffer(&mut reader), Some(3));

    let mut reader = ReadBuffer::from_raw(vec![1, 2, 3, 4]);
    assert_eq!(<(u8, u16, u32)>::from_buffer(&mut reader), None);
    assert_eq!(u8::from_buffer(&mut reader), Some(4));
}
