//! Type tags, written and read again.

use osc_codec::{collect, Decode, Misaligned4B, SliceStream, Tag, TagDecodeErr, Tags};

#[test]
fn manual_tags_roundtrip() {
    for original in [
        Tags(vec![]),
        Tags(vec![Tag::Integer]),
        Tags(vec![Tag::Float]),
        Tags(vec![Tag::String]),
        Tags(vec![Tag::Blob]),
        Tags(vec![Tag::Integer, Tag::Integer]),
        Tags(vec![Tag::Integer, Tag::Float]),
        Tags(vec![Tag::Integer, Tag::String]),
        Tags(vec![Tag::Integer, Tag::Blob]),
        Tags(vec![Tag::Float, Tag::Integer]),
        Tags(vec![Tag::Float, Tag::Float]),
        Tags(vec![Tag::Float, Tag::String]),
        Tags(vec![Tag::Float, Tag::Blob]),
        Tags(vec![Tag::String, Tag::Integer]),
        Tags(vec![Tag::String, Tag::Float]),
        Tags(vec![Tag::String, Tag::String]),
        Tags(vec![Tag::String, Tag::Blob]),
        Tags(vec![Tag::Blob, Tag::Integer]),
        Tags(vec![Tag::Blob, Tag::Float]),
        Tags(vec![Tag::Blob, Tag::String]),
        Tags(vec![Tag::Blob, Tag::Blob]),
        Tags(vec![Tag::Integer, Tag::Integer, Tag::Integer]),
        Tags(vec![Tag::Integer, Tag::Integer, Tag::Integer, Tag::Integer]),
        Tags(vec![
            Tag::Integer,
            Tag::Integer,
            Tag::Integer,
            Tag::Integer,
            Tag::Integer,
        ]),
    ] {
        assert_eq!(
            Tags::decode(&mut original.clone().into_iter()),
            Ok(original)
        );
    }
}

#[test]
fn tags_are_written_with_comma_and_padding() {
    assert_eq!(collect(Tags(vec![]).into_iter()), b",\0\0\0");
    assert_eq!(collect(Tags(vec![Tag::Integer]).into_iter()), b",i\0\0");
    assert_eq!(
        collect(Tags(vec![Tag::Integer, Tag::Float]).into_iter()),
        b",if\0"
    );
    assert_eq!(
        collect(Tags(vec![Tag::Integer, Tag::Float, Tag::String]).into_iter()),
        b",ifs\0\0\0\0"
    );
    assert_eq!(
        collect(Tags(vec![Tag::Blob, Tag::Blob, Tag::Blob, Tag::Blob]).into_iter()),
        b",bbbb\0\0\0"
    );
}

#[test]
fn tags_without_comma_are_rejected() {
    assert_eq!(
        Tags::decode(&mut SliceStream::new(b"if\0\0")),
        Err(Misaligned4B::Other(TagDecodeErr::MissingComma(b'i')))
    );
}

#[test]
fn unknown_tag_is_rejected() {
    assert_eq!(
        Tags::decode(&mut SliceStream::new(b",ix\0")),
        Err(Misaligned4B::Other(TagDecodeErr::UnrecognizedTypeTag(b'x')))
    );
    assert_eq!(
        Tags::decode(&mut SliceStream::new(b",ii,\0\0\0\0")),
        Err(Misaligned4B::Other(TagDecodeErr::UnrecognizedTypeTag(b',')))
    );
}

#[test]
fn tags_with_bytes_after_the_null_are_rejected() {
    assert_eq!(
        Tags::decode(&mut SliceStream::new(b",\0\0i")),
        Err(Misaligned4B::Other(TagDecodeErr::NullThenNonNull))
    );
    assert_eq!(
        Tags::decode(&mut SliceStream::new(b",ii\0\0\0i\0")),
        Ok(Tags(vec![Tag::Integer, Tag::Integer]))
    );
    assert_eq!(
        Tags::decode(&mut SliceStream::new(b",iii\0i\0\0")),
        Err(Misaligned4B::Other(TagDecodeErr::NullThenNonNull))
    );
}

#[test]
fn tags_that_run_out_end_or_are_misaligned() {
    assert_eq!(
        Tags::decode(&mut SliceStream::new(b"")),
        Err(Misaligned4B::End)
    );
    assert_eq!(
        Tags::decode(&mut SliceStream::new(b",i")),
        Err(Misaligned4B::Misaligned)
    );
    assert_eq!(
        Tags::decode(&mut SliceStream::new(b",iii")),
        Err(Misaligned4B::End)
    );
    assert_eq!(
        Tags::decode(&mut SliceStream::new(b",iiii")),
        Err(Misaligned4B::Misaligned)
    );
}

#[test]
fn tags_leave_the_rest_unread() {
    let mut stream = SliceStream::new(b",i\0\0\x00\x00\x00\x07");
    assert_eq!(Tags::decode(&mut stream), Ok(Tags(vec![Tag::Integer])));
    assert_eq!(collect(stream), [0, 0, 0, 7]);
}

#[test]
fn every_tag_is_read_from_its_byte() {
    for tag in [Tag::Integer, Tag::Float, Tag::String, Tag::Blob] {
        assert_eq!(Tag::try_from(u8::from(tag)), Ok(tag));
        assert_eq!(Tag::try_from(tag.byte()), Ok(tag));
    }
    assert_eq!(u8::from(Tag::Integer), b'i');
    assert_eq!(u8::from(Tag::Float), b'f');
    assert_eq!(u8::from(Tag::String), b's');
    assert_eq!(u8::from(Tag::Blob), b'b');
}

#[test]
fn every_other_byte_is_no_tag() {
    for byte in 0..=255u8 {
        match Tag::try_from(byte) {
            Ok(tag) => assert_eq!(u8::from(tag), byte),
            Err(e) => {
                assert!(!b"ifsb".contains(&byte));
                assert_eq!(e, TagDecodeErr::UnrecognizedTypeTag(byte));
            }
        }
    }
}
