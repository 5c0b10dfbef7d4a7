//! Whole messages, and values whose types are known only when they are read.

use osc_codec::{
    collect, Address, AddressErr, BlobDecodeErr, Data, Decode, Dynamic, DynamicDecodeErr, Float,
    Integer, IntoAddress, IntoAtomic, IntoOsc, InvalidContents, Message, Misaligned4B, SliceStream,
    StringDecodeErr, Tag, TagDecodeErr, Tags, Tuple,
};

const NONE: [&str; 0] = [];

fn data(values: Vec<Data>) -> Dynamic {
    Dynamic(values)
}

fn sample() -> Vec<Data> {
    vec![
        Data::Integer(Integer::new(1000)),
        Data::Float(Float::from_bits(0x3F9D_F3B6)),
        Data::String("hello".to_string().into_atomic().unwrap()),
        Data::Blob(vec![1u8, 2, 3, 4].into_atomic().unwrap()),
    ]
}

const SAMPLE: &[u8] = b",ifsb\0\0\0\
    \x00\x00\x03\xE8\
    \x3F\x9D\xF3\xB6\
    hello\0\0\0\
    \x00\x00\x00\x04\x01\x02\x03\x04";

#[test]
fn message_of_nothing_has_empty_tags() {
    let msg = ().into_osc(["a"], "b").unwrap();
    assert_eq!(collect(msg.into_iter()), b"/a/b\0\0\0\0,\0\0\0");
}

#[test]
fn message_of_one_value_of_each_type() {
    assert_eq!(
        collect(7.into_osc(NONE, "i").unwrap().into_iter()),
        b"/i\0\0,i\0\0\0\0\0\x07"
    );
    assert_eq!(
        collect("x".into_osc(NONE, "s").unwrap().into_iter()),
        b"/s\0\0,s\0\0x\0\0\0"
    );
    assert_eq!(
        collect("x".to_string().into_osc(NONE, "s").unwrap().into_iter()),
        b"/s\0\0,s\0\0x\0\0\0"
    );
    let blob: &[u8] = &[9, 9];
    assert_eq!(
        collect(blob.into_osc(NONE, "b").unwrap().into_iter()),
        b"/b\0\0,b\0\0\0\0\0\x02\x09\x09\0\0"
    );
    assert_eq!(
        collect(vec![9u8, 9].into_osc(NONE, "b").unwrap().into_iter()),
        b"/b\0\0,b\0\0\0\0\0\x02\x09\x09\0\0"
    );
    assert_eq!(
        collect(
            Float::from_bits(0x4000_0000)
                .into_osc(NONE, "f")
                .unwrap()
                .into_iter()
        ),
        b"/f\0\0,f\0\0\x40\0\0\0"
    );
    assert_eq!(
        collect(
            Data::Integer(Integer::new(7))
                .into_osc(NONE, "d")
                .unwrap()
                .into_iter()
        ),
        b"/d\0\0,i\0\0\0\0\0\x07"
    );
}

#[test]
fn message_of_eight_values() {
    let msg = (1, 2, 3, 4, 5, 6, 7, "eight")
        .into_osc(["n"], "all")
        .unwrap();
    let mut expected = b"/n/all\0\0,iiiiiiis\0\0\0".to_vec();
    for i in 1..=7u8 {
        expected.extend_from_slice(&[0, 0, 0, i]);
    }
    expected.extend_from_slice(b"eight\0\0\0");
    assert_eq!(collect(msg.into_iter()), expected);
}

#[test]
fn tuples_give_their_tags_and_bytes_in_order() {
    let tuple = (
        Integer::new(1),
        "two".into_atomic().unwrap(),
        Float::from_bits(3),
    );
    assert_eq!(tuple.type_tag(), [Tag::Integer, Tag::String, Tag::Float]);
    assert_eq!(collect(tuple.chain()), b"\0\0\0\x01two\0\0\0\0\x03");
    assert_eq!(().type_tag(), []);
    assert_eq!(collect(().chain()), b"");
    assert_eq!((Integer::new(1),).type_tag(), [Tag::Integer]);
    assert_eq!(
        (Integer::new(1), Integer::new(2)).type_tag(),
        [Tag::Integer, Tag::Integer]
    );
    assert_eq!(
        collect((Integer::new(1), Integer::new(2)).chain()),
        [0, 0, 0, 1, 0, 0, 0, 2]
    );
}

#[test]
fn message_is_address_then_tags_then_data() {
    let address = ["a"].into_address("b").unwrap();
    let msg = Message::new(address.clone(), data(sample()));
    let mut expected = collect(address.into_iter());
    expected.extend_from_slice(SAMPLE);
    assert_eq!(collect(msg.into_iter()), expected);
}

#[test]
fn invalid_address_is_reported_before_invalid_data() {
    assert_eq!(
        "caf\u{e9}".into_osc(["a b"], "m").unwrap_err(),
        AddressErr::InvalidCharacter(b' ')
    );
    assert_eq!(
        "caf\u{e9}".into_osc(NONE, "").unwrap_err(),
        AddressErr::Empty
    );
    assert_eq!(
        ().into_osc(NONE, "#").unwrap_err(),
        AddressErr::InvalidCharacter(b'#')
    );
}

#[test]
fn invalid_data_is_reported_as_a_string_error() {
    assert_eq!(
        "caf\u{e9}".into_osc(NONE, "m").unwrap_err(),
        AddressErr::StringErr(InvalidContents::NonAscii)
    );
    assert_eq!(
        "a\0".to_string().into_osc(NONE, "m").unwrap_err(),
        AddressErr::StringErr(InvalidContents::NullInString)
    );
    assert_eq!(
        (1, "a\0", "caf\u{e9}").into_osc(NONE, "m").unwrap_err(),
        AddressErr::StringErr(InvalidContents::NullInString)
    );
    assert_eq!(
        (1, "\u{e9}", "a\0").into_osc(NONE, "m").unwrap_err(),
        AddressErr::StringErr(InvalidContents::NonAscii)
    );
}

#[test]
fn dynamic_values_are_written_with_their_tags() {
    let values = data(sample());
    assert_eq!(
        values.type_tag(),
        [Tag::Integer, Tag::Float, Tag::String, Tag::Blob]
    );
    assert_eq!(collect(values.clone().chain()), &SAMPLE[8..]);
    assert_eq!(sample().type_tag(), values.type_tag());
    assert_eq!(collect(sample().chain()), &SAMPLE[8..]);
    let msg = values.into_osc(NONE, "m").unwrap();
    let mut expected = b"/m\0\0".to_vec();
    expected.extend_from_slice(SAMPLE);
    assert_eq!(collect(msg.into_iter()), expected);
}

#[test]
fn dynamic_values_are_read_by_their_tags() {
    let mut stream = SliceStream::new(SAMPLE);
    assert_eq!(Dynamic::decode(&mut stream), Ok(data(sample())));
    assert_eq!(collect(stream), b"");
    assert_eq!(
        Dynamic::decode(&mut SliceStream::new(b",\0\0\0")),
        Ok(data(vec![]))
    );
}

#[test]
fn message_round_trip() {
    let msg = data(sample()).into_osc(["a", "b"], "c").unwrap();
    let mut stream = msg.into_iter();
    assert_eq!(
        Address::decode(&mut stream),
        Ok(["a", "b"].into_address("c").unwrap())
    );
    assert_eq!(Dynamic::decode(&mut stream), Ok(data(sample())));
    assert_eq!(collect(stream), b"");
}

#[test]
fn message_is_read_piece_by_piece() {
    let mut stream = SliceStream::new(b"/foo\0\0\0\0,is\0\0\0\0\x2Ahi\0\0rest");
    assert_eq!(
        Address::decode(&mut stream),
        Ok(NONE.into_address("foo").unwrap())
    );
    assert_eq!(
        Tags::decode(&mut stream),
        Ok(Tags(vec![Tag::Integer, Tag::String]))
    );
    assert_eq!(Integer::decode(&mut stream), Ok(Integer::new(42)));
    assert_eq!(
        osc_codec::DynamicString::decode(&mut stream),
        Ok("hi".to_string().into_atomic().unwrap())
    );
    assert_eq!(collect(stream), b"rest");
}

#[test]
fn first_failure_among_dynamic_values_is_reported() {
    let decode = |bytes: &[u8]| Dynamic::decode(&mut SliceStream::new(bytes));
    assert_eq!(
        decode(b"is\0\0"),
        Err(Misaligned4B::Other(DynamicDecodeErr::TypeTagErr(
            TagDecodeErr::MissingComma(b'i')
        )))
    );
    assert_eq!(
        decode(b",x\0\0"),
        Err(Misaligned4B::Other(DynamicDecodeErr::TypeTagErr(
            TagDecodeErr::UnrecognizedTypeTag(b'x')
        )))
    );
    assert_eq!(
        decode(b",\0i\0"),
        Err(Misaligned4B::Other(DynamicDecodeErr::TypeTagErr(
            TagDecodeErr::NullThenNonNull
        )))
    );
    assert_eq!(
        decode(b",sb\0a\x80\0\0\xff\xff\xff\xff"),
        Err(Misaligned4B::Other(DynamicDecodeErr::StringErr(
            StringDecodeErr::NonAscii(0x80)
        )))
    );
    assert_eq!(
        decode(b",s\0\0a\0b\0"),
        Err(Misaligned4B::Other(DynamicDecodeErr::StringErr(
            StringDecodeErr::NullThenNonNull
        )))
    );
    assert_eq!(
        decode(b",ib\0\0\0\0\x01\xff\xff\xff\xff"),
        Err(Misaligned4B::Other(DynamicDecodeErr::BlobErr(
            BlobDecodeErr::NegativeSize
        )))
    );
    assert_eq!(decode(b""), Err(Misaligned4B::End));
    assert_eq!(decode(b",i\0\0"), Err(Misaligned4B::End));
    assert_eq!(decode(b",i\0\0\0\0"), Err(Misaligned4B::Misaligned));
    assert_eq!(decode(b",if\0\0\0\0\x01"), Err(Misaligned4B::End));
    assert_eq!(decode(b",i\0"), Err(Misaligned4B::Misaligned));
}

#[test]
fn values_are_encoded_and_decoded_in_one_call() {
    assert_eq!(
        osc_codec::encode((1000, -1, "hello"), NONE, "foo"),
        Ok(b"/foo\0\0\0\0,iis\0\0\0\0\x00\x00\x03\xE8\xFF\xFF\xFF\xFFhello\0\0\0".to_vec())
    );
    assert_eq!(osc_codec::encode(1, ["a", ""], "b"), Err(AddressErr::Empty));
    assert_eq!(
        osc_codec::encode("\0", ["a"], "b"),
        Err(AddressErr::StringErr(InvalidContents::NullInString))
    );
    assert_eq!(
        osc_codec::decode::<Address>(b"/foo\0\0\0\0,i\0\0"),
        Ok(NONE.into_address("foo").unwrap())
    );
    assert_eq!(
        osc_codec::decode::<Integer>(&[0, 0, 1, 0]),
        Ok(Integer::new(256))
    );
    assert_eq!(
        osc_codec::decode::<Tags>(b",f"),
        Err(Misaligned4B::Misaligned)
    );
}

#[test]
fn message_gives_back_its_parts() {
    let address = ["a"].into_address("b").unwrap();
    let msg = Message::new(address.clone(), data(sample()));
    assert!(msg.fits());
    assert_eq!(msg.into_parts(), (address, data(sample())));
    assert!(().fits());
    assert!((Integer::new(1), Float::from_bits(2)).fits());
    assert!(data(vec![]).fits());
    assert!(sample().fits());
}

#[test]
fn values_are_read_for_tags_that_were_read_before() {
    let mut stream = SliceStream::new(SAMPLE);
    let tags = Tags::decode(&mut stream).unwrap();
    assert_eq!(
        Dynamic::decode_values(&tags, &mut stream),
        Ok(data(sample()))
    );
    let mut stream = SliceStream::new(b"\0\0\0\x07hi\0\0tail");
    assert_eq!(
        Data::decode(Tag::Integer, &mut stream),
        Ok(Data::Integer(Integer::new(7)))
    );
    assert_eq!(
        Data::decode(Tag::String, &mut stream),
        Ok(Data::String("hi".to_string().into_atomic().unwrap()))
    );
    assert_eq!(
        Data::decode(Tag::Float, &mut stream),
        Ok(Data::Float(Float::from_bits(0x7461_696C)))
    );
    assert_eq!(Data::decode(Tag::Blob, &mut stream), Err(Misaligned4B::End));
    assert_eq!(
        Dynamic::decode_values(
            &Tags(vec![Tag::Integer, Tag::Integer]),
            &mut SliceStream::new(&[0, 0, 0, 1, 0, 0])
        ),
        Err(Misaligned4B::Misaligned)
    );
}
