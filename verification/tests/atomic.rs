//! Integers, floats, strings and blobs on the wire.

use osc_codec::{
    collect, Atomic, Blob, BlobDecodeErr, Data, Decode, DynamicBlob, DynamicString, Float, Integer,
    IntoAtomic, InvalidContents, Misaligned4B, SliceStream, StringDecodeErr, Tag,
};

fn string(text: &str) -> DynamicString {
    text.to_string().into_atomic().unwrap()
}

#[test]
fn integers_are_big_endian_twos_complement() {
    let cases: [(i32, [u8; 4]); 8] = [
        (0, [0, 0, 0, 0]),
        (1, [0, 0, 0, 1]),
        (1000, [0, 0, 0x03, 0xE8]),
        (-1, [0xFF, 0xFF, 0xFF, 0xFF]),
        (-2, [0xFF, 0xFF, 0xFF, 0xFE]),
        (0x1234_5678, [0x12, 0x34, 0x56, 0x78]),
        (i32::MAX, [0x7F, 0xFF, 0xFF, 0xFF]),
        (i32::MIN, [0x80, 0, 0, 0]),
    ];
    for (value, bytes) in cases {
        let integer = value.into_atomic().unwrap();
        assert_eq!(collect(integer.into_iter()), bytes);
        assert_eq!(integer.into_rust(), value);
        assert_eq!(integer.value(), value);
        assert_eq!(i32::from(integer), value);
        assert_eq!(Integer::from_be_bytes(bytes), integer);
        assert_eq!(Integer::try_from(value), Ok(integer));
        assert_eq!(Integer::decode(&mut SliceStream::new(&bytes)), Ok(integer));
        assert_eq!(integer.type_tag(), Tag::Integer);
    }
}

#[test]
fn floats_are_big_endian_ieee_754() {
    let cases: [(f32, [u8; 4]); 5] = [
        (0.0, [0, 0, 0, 0]),
        (440.0, [0x43, 0xDC, 0, 0]),
        (1.234, [0x3F, 0x9D, 0xF3, 0xB6]),
        (5.678, [0x40, 0xB5, 0xB2, 0x2D]),
        (-1.0, [0xBF, 0x80, 0, 0]),
    ];
    for (value, bytes) in cases {
        let float = Float::from_bits(value.to_bits());
        assert_eq!(collect(float.into_iter()), bytes);
        assert_eq!(f32::from_bits(float.to_bits()), value);
        assert_eq!(Float::from_be_bytes(bytes), float);
        assert_eq!(Float::decode(&mut SliceStream::new(&bytes)), Ok(float));
        assert_eq!(float.type_tag(), Tag::Float);
        assert_eq!(float.into_rust(), float);
    }
}

#[test]
fn numbers_need_a_whole_unit() {
    assert_eq!(
        Integer::decode(&mut SliceStream::new(&[])),
        Err(Misaligned4B::End)
    );
    assert_eq!(
        Integer::decode(&mut SliceStream::new(&[1, 2, 3])),
        Err(Misaligned4B::Misaligned)
    );
    assert_eq!(
        Float::decode(&mut SliceStream::new(&[])),
        Err(Misaligned4B::End)
    );
    assert_eq!(
        Float::decode(&mut SliceStream::new(&[1])),
        Err(Misaligned4B::Misaligned)
    );
    let mut two = SliceStream::new(&[0, 0, 0, 1, 0, 0, 0, 2]);
    assert_eq!(Integer::decode(&mut two).unwrap().value(), 1);
    assert_eq!(Integer::decode(&mut two).unwrap().value(), 2);
    assert_eq!(Integer::decode(&mut two), Err(Misaligned4B::End));
}

#[test]
fn strings_are_null_terminated_and_padded() {
    let cases: [(&str, &[u8]); 6] = [
        ("", b"\0\0\0\0"),
        ("a", b"a\0\0\0"),
        ("ab", b"ab\0\0"),
        ("osc", b"osc\0"),
        ("data", b"data\0\0\0\0"),
        ("hello", b"hello\0\0\0"),
    ];
    for (text, bytes) in cases {
        assert_eq!(collect(text.into_atomic().unwrap().into_iter()), bytes);
        assert_eq!(collect(string(text).into_iter()), bytes);
        assert_eq!(
            DynamicString::decode(&mut SliceStream::new(bytes)),
            Ok(string(text))
        );
        assert_eq!(text.into_atomic().unwrap().into_rust(), text);
        assert_eq!(string(text).into_rust(), text);
        assert_eq!(string(text).type_tag(), Tag::String);
        assert_eq!(text.into_atomic().unwrap().type_tag(), Tag::String);
    }
}

#[test]
fn strings_must_be_ascii_without_null() {
    assert_eq!("caf\u{e9}".into_atomic(), Err(InvalidContents::NonAscii));
    assert_eq!("a\0b".into_atomic(), Err(InvalidContents::NullInString));
    assert_eq!("\u{e9}\0".into_atomic(), Err(InvalidContents::NonAscii));
    assert_eq!(
        "caf\u{e9}".to_string().into_atomic(),
        Err(InvalidContents::NonAscii)
    );
    assert_eq!(
        "\0".to_string().into_atomic(),
        Err(InvalidContents::NullInString)
    );
    assert_eq!(
        DynamicString::try_from("a\0".to_string()),
        Err(InvalidContents::NullInString)
    );
    assert_eq!(
        osc_codec::String::try_from("\u{80}"),
        Err(InvalidContents::NonAscii)
    );
    assert!(osc_codec::String::try_from("\u{7f}").is_ok());
    assert_eq!(
        <&str>::from(osc_codec::String::try_from("abc").unwrap()),
        "abc"
    );
    assert_eq!(std::string::String::from(string("abc")), "abc");
}

#[test]
fn string_round_trip() {
    for text in ["", "a", "abcd", "hello world", "~tilde~ and \x01\x7f"] {
        let original = string(text);
        assert_eq!(
            DynamicString::decode(&mut original.clone().into_iter()),
            Ok(original)
        );
    }
}

#[test]
fn string_with_a_byte_above_ascii_is_rejected() {
    assert_eq!(
        DynamicString::decode(&mut SliceStream::new(b"ab\x80\0")),
        Err(Misaligned4B::Other(StringDecodeErr::NonAscii(0x80)))
    );
    assert_eq!(
        DynamicString::decode(&mut SliceStream::new(b"abcd\xff\0\0\0")),
        Err(Misaligned4B::Other(StringDecodeErr::NonAscii(0xff)))
    );
    assert_eq!(
        DynamicString::decode(&mut SliceStream::new(b"\x80\0")),
        Err(Misaligned4B::Misaligned)
    );
}

#[test]
fn string_with_bytes_after_the_null_is_rejected() {
    for bytes in [
        &b"\0\0\0a"[..],
        b"a\0b\0",
        b"ab\0c",
        b"a\0\0\x80",
        b"abcd\0\0\x01\0",
    ] {
        assert_eq!(
            DynamicString::decode(&mut SliceStream::new(bytes)),
            Err(Misaligned4B::Other(StringDecodeErr::NullThenNonNull))
        );
    }
    let mut next_unit = SliceStream::new(b"abc\0x\0\0\0");
    assert_eq!(DynamicString::decode(&mut next_unit), Ok(string("abc")));
    assert_eq!(collect(next_unit), b"x\0\0\0");
}

#[test]
fn string_that_runs_out_ends_or_is_misaligned() {
    assert_eq!(
        DynamicString::decode(&mut SliceStream::new(b"")),
        Err(Misaligned4B::End)
    );
    assert_eq!(
        DynamicString::decode(&mut SliceStream::new(b"abcd")),
        Err(Misaligned4B::End)
    );
    assert_eq!(
        DynamicString::decode(&mut SliceStream::new(b"abcde")),
        Err(Misaligned4B::Misaligned)
    );
    assert_eq!(
        DynamicString::decode(&mut SliceStream::new(b"ab\0")),
        Err(Misaligned4B::Misaligned)
    );
}

#[test]
fn blobs_carry_their_length_and_are_padded() {
    let cases: [(&[u8], &[u8]); 5] = [
        (&[], &[0, 0, 0, 0]),
        (&[9], &[0, 0, 0, 1, 9, 0, 0, 0]),
        (&[9, 8, 7], &[0, 0, 0, 3, 9, 8, 7, 0]),
        (&[9, 8, 7, 6], &[0, 0, 0, 4, 9, 8, 7, 6]),
        (&[1, 2, 3, 4, 5], &[0, 0, 0, 5, 1, 2, 3, 4, 5, 0, 0, 0]),
    ];
    for (content, bytes) in cases {
        assert_eq!(collect(content.into_atomic().unwrap().into_iter()), bytes);
        assert_eq!(
            collect(content.to_vec().into_atomic().unwrap().into_iter()),
            bytes
        );
        assert_eq!(content.into_atomic().unwrap().into_rust(), content);
        assert_eq!(content.to_vec().into_atomic().unwrap().into_rust(), content);
        assert_eq!(content.into_atomic().unwrap().type_tag(), Tag::Blob);
    }
    let long = vec![0xAAu8; 300];
    let encoded = collect(long.clone().into_atomic().unwrap().into_iter());
    assert_eq!(&encoded[..4], &[0, 0, 0x01, 0x2C]);
    assert_eq!(&encoded[4..], &long[..]);
    assert_eq!(Blob::try_from(&[1u8, 2]).unwrap().into_rust(), &[1, 2]);
    assert_eq!(
        <&[u8]>::from(Blob::try_from(&[1u8, 2][..]).unwrap()),
        &[1, 2]
    );
    assert_eq!(
        Vec::<u8>::from(DynamicBlob::try_from(vec![1u8, 2]).unwrap()),
        [1, 2]
    );
}

#[test]
fn blob_round_trip() {
    for len in [0usize, 4, 8, 64] {
        let content: Vec<u8> = (0..len).map(|i| i as u8).collect();
        let original = content.into_atomic().unwrap();
        assert_eq!(
            DynamicBlob::decode(&mut original.clone().into_iter()),
            Ok(original)
        );
    }
}

#[test]
fn blob_comes_back_with_its_padding() {
    let original = vec![1u8].into_atomic().unwrap();
    assert_eq!(
        DynamicBlob::decode(&mut original.into_iter()),
        Ok(vec![1u8, 0, 0, 0].into_atomic().unwrap())
    );
    assert_eq!(
        DynamicBlob::decode(&mut SliceStream::new(&[
            0, 0, 0, 6, 1, 2, 3, 4, 5, 6, 7, 8, 9
        ])),
        Ok(vec![1u8, 2, 3, 4, 5, 6, 7, 8].into_atomic().unwrap())
    );
}

#[test]
fn blob_reads_as_many_units_as_its_length_takes() {
    let mut stream =
        SliceStream::new(&[0, 0, 0, 9, 1, 2, 3, 4, 5, 6, 7, 8, 9, 0, 0, 0, 7, 7, 7, 7]);
    assert_eq!(
        DynamicBlob::decode(&mut stream),
        Ok(vec![1u8, 2, 3, 4, 5, 6, 7, 8, 9, 0, 0, 0]
            .into_atomic()
            .unwrap())
    );
    assert_eq!(collect(stream), [7, 7, 7, 7]);
}

#[test]
fn blob_with_a_negative_size_is_rejected() {
    let mut stream = SliceStream::new(&[0x80, 0, 0, 0, 1, 2, 3, 4]);
    assert_eq!(
        DynamicBlob::decode(&mut stream),
        Err(Misaligned4B::Other(BlobDecodeErr::NegativeSize))
    );
    assert_eq!(collect(stream), [1, 2, 3, 4]);
    assert_eq!(
        DynamicBlob::decode(&mut SliceStream::new(&[0xFF, 0xFF, 0xFF, 0xFF])),
        Err(Misaligned4B::Other(BlobDecodeErr::NegativeSize))
    );
}

#[test]
fn blob_that_runs_out_ends_or_is_misaligned() {
    assert_eq!(
        DynamicBlob::decode(&mut SliceStream::new(&[])),
        Err(Misaligned4B::End)
    );
    assert_eq!(
        DynamicBlob::decode(&mut SliceStream::new(&[0, 0])),
        Err(Misaligned4B::Misaligned)
    );
    assert_eq!(
        DynamicBlob::decode(&mut SliceStream::new(&[0, 0, 0, 5, 1, 2, 3, 4])),
        Err(Misaligned4B::End)
    );
    assert_eq!(
        DynamicBlob::decode(&mut SliceStream::new(&[0, 0, 0, 5, 1, 2, 3, 4, 5])),
        Err(Misaligned4B::Misaligned)
    );
    assert_eq!(
        DynamicBlob::decode(&mut SliceStream::new(&[0x7F, 0xFF, 0xFF, 0xFF, 1, 2, 3, 4])),
        Err(Misaligned4B::End)
    );
}

#[test]
fn data_is_written_as_the_value_it_holds() {
    let cases: Vec<(Data, Tag, &[u8])> = vec![
        (Data::Integer(Integer::new(-1)), Tag::Integer, &[0xFF; 4]),
        (
            Data::Float(Float::from_bits(0x43DC_0000)),
            Tag::Float,
            &[0x43, 0xDC, 0, 0],
        ),
        (Data::String(string("hi")), Tag::String, b"hi\0\0"),
        (
            Data::Blob(vec![5u8].into_atomic().unwrap()),
            Tag::Blob,
            &[0, 0, 0, 1, 5, 0, 0, 0],
        ),
    ];
    for (data, tag, bytes) in cases {
        assert_eq!(data.type_tag(), tag);
        assert_eq!(data.clone().into_atomic(), Ok(data.clone()));
        assert_eq!(data.clone().into_rust(), data);
        assert_eq!(collect(data.into_iter()), bytes);
    }
}

#[test]
fn data_narrows_to_the_type_it_holds_only() {
    let integer = Data::Integer(Integer::new(3));
    assert_eq!(Integer::try_from(integer.clone()), Ok(Integer::new(3)));
    assert_eq!(Float::try_from(integer.clone()), Err(integer.clone()));
    assert_eq!(
        DynamicString::try_from(integer.clone()),
        Err(integer.clone())
    );
    assert_eq!(DynamicBlob::try_from(integer.clone()), Err(integer));
    let float = Data::Float(Float::from_bits(1));
    assert_eq!(Float::try_from(float.clone()), Ok(Float::from_bits(1)));
    assert_eq!(Integer::try_from(float.clone()), Err(float));
    let text = Data::String(string("s"));
    assert_eq!(DynamicString::try_from(text.clone()), Ok(string("s")));
    assert_eq!(DynamicBlob::try_from(text.clone()), Err(text));
    let blob = Data::Blob(vec![1u8].into_atomic().unwrap());
    assert_eq!(
        DynamicBlob::try_from(blob.clone()),
        Ok(vec![1u8].into_atomic().unwrap())
    );
    assert_eq!(DynamicString::try_from(blob.clone()), Err(blob));
}
