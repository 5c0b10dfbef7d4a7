//! Addresses: what they may hold, how they are written and how they are read.

use osc_codec::{
    collect, valid_address_character, Address, AddressDecodeErr, AddressErr, Decode, IntoAddress,
    IntoIntoAddress, Misaligned4B, SliceStream,
};

const NONE: [&str; 0] = [];

fn decode(bytes: &[u8]) -> Result<Address, Misaligned4B<AddressDecodeErr>> {
    Address::decode(&mut SliceStream::new(bytes))
}

fn other(e: AddressDecodeErr) -> Result<Address, Misaligned4B<AddressDecodeErr>> {
    Err(Misaligned4B::Other(e))
}

#[test]
fn valid_characters_are_printable_and_not_set_aside() {
    for c in 0..=255u8 {
        let expected = (32..=126).contains(&c) && !b" #*,/?[]{}".contains(&c);
        assert_eq!(valid_address_character(c), expected, "{c}");
    }
}

#[test]
fn address_is_written_with_slashes_null_and_padding() {
    let cases: [(&[&str], &str, &[u8]); 6] = [
        (&[], "foo", b"/foo\0\0\0\0"),
        (&[], "a", b"/a\0\0"),
        (&[], "ab", b"/ab\0"),
        (&["a"], "b", b"/a/b\0\0\0\0"),
        (
            &["oscillator", "4"],
            "frequency",
            b"/oscillator/4/frequency\0",
        ),
        (&["x", "y", "z"], "w", b"/x/y/z/w\0\0\0\0"),
    ];
    for (path, method, bytes) in cases {
        let address = path.to_vec().into_address(method).unwrap();
        assert_eq!(collect(address.clone().into_iter()), bytes);
        assert_eq!(decode(bytes), Ok(address));
    }
}

#[test]
fn address_is_made_of_arrays_vectors_and_strings() {
    let from_array = ["a", "b"].into_address("c").unwrap();
    let from_vec = vec!["a", "b"].into_address("c").unwrap();
    let from_strings = vec!["a".to_string(), "b".to_string()]
        .into_address("c".to_string())
        .unwrap();
    assert_eq!(from_array, from_vec);
    assert_eq!(from_array, from_strings);
    assert_eq!(collect(from_array.into_iter()), b"/a/b/c\0\0");
    assert_eq!(collect("abc".into_into_addr()), b"abc");
    assert_eq!(collect("abc".to_string().into_into_addr()), b"abc");
    let (path, method) = from_vec.into_strings();
    assert_eq!(path, ["a", "b"]);
    assert_eq!(method, "c");
}

#[test]
fn address_round_trip() {
    let cases: [(&[&str], &str); 5] = [
        (&[], "m"),
        (&["lighting", "right"], "on"),
        (&["a", "bb", "ccc", "dddd"], "eeeee"),
        (&["!\"$%&'()+-.", "0123456789:;<=>@"], "ABCXYZ\\^_`abcxyz|~"),
        (&["1"], "2"),
    ];
    for (path, method) in cases {
        let original = path.to_vec().into_address(method).unwrap();
        assert_eq!(
            Address::decode(&mut original.clone().into_iter()),
            Ok(original)
        );
    }
}

#[test]
fn empty_segments_are_rejected() {
    assert_eq!(NONE.into_address(""), Err(AddressErr::Empty));
    assert_eq!(["a"].into_address(""), Err(AddressErr::Empty));
    assert_eq!([""].into_address("a"), Err(AddressErr::Empty));
    assert_eq!(["a", "", "b"].into_address("c"), Err(AddressErr::Empty));
    assert_eq!(
        vec![std::string::String::new()].into_address("a".to_string()),
        Err(AddressErr::Empty)
    );
}

#[test]
fn invalid_characters_are_rejected() {
    for c in b" #*,/?[]{}\x00\x01\x1f\x7f" {
        let text = format!("a{}b", *c as char);
        assert_eq!(
            NONE.into_address(text.as_str()),
            Err(AddressErr::InvalidCharacter(*c))
        );
        assert_eq!(
            [text.as_str()].into_address("m"),
            Err(AddressErr::InvalidCharacter(*c))
        );
    }
    assert_eq!(
        NONE.into_address("caf\u{e9}"),
        Err(AddressErr::InvalidCharacter(0xC3))
    );
}

#[test]
fn the_first_fault_of_an_address_is_reported() {
    assert_eq!(
        ["ok", "b*d#", ""].into_address("m"),
        Err(AddressErr::InvalidCharacter(b'*'))
    );
    assert_eq!(["ok", "", "b*d"].into_address("m"), Err(AddressErr::Empty));
    assert_eq!(
        ["a?"].into_address(""),
        Err(AddressErr::InvalidCharacter(b'?'))
    );
    assert_eq!(
        ["a"].into_address("[]"),
        Err(AddressErr::InvalidCharacter(b'['))
    );
}

#[test]
fn address_without_leading_slash_is_rejected() {
    assert_eq!(
        decode(b"foo\0"),
        other(AddressDecodeErr::LeadingSlash { actual: b'f' })
    );
    assert_eq!(
        decode(b"\0\0\0\0"),
        other(AddressDecodeErr::LeadingSlash { actual: 0 })
    );
    let mut stream = SliceStream::new(b",i\0\0/a\0\0");
    assert_eq!(
        Address::decode(&mut stream),
        other(AddressDecodeErr::LeadingSlash { actual: b',' })
    );
    assert_eq!(collect(stream), b"/a\0\0");
}

#[test]
fn address_without_method_is_rejected() {
    assert_eq!(decode(b"/\0\0\0"), other(AddressDecodeErr::NoMethod));
    assert_eq!(decode(b"/a/\0"), other(AddressDecodeErr::NoMethod));
    assert_eq!(decode(b"/abc/\0\0\0"), other(AddressDecodeErr::NoMethod));
    assert_eq!(decode(b"/ab/\0xy\0"), other(AddressDecodeErr::NoMethod));
}

#[test]
fn address_with_an_empty_segment_is_rejected() {
    assert_eq!(decode(b"//a\0"), other(AddressDecodeErr::EmptySegment));
    assert_eq!(
        decode(b"/a//b\0\0\0"),
        other(AddressDecodeErr::EmptySegment)
    );
    assert_eq!(decode(b"/abc//d\0"), other(AddressDecodeErr::EmptySegment));
}

#[test]
fn address_with_a_pattern_character_is_rejected() {
    for c in b" #*,?[]{}" {
        let bytes = [b'/', b'a', *c, 0];
        assert_eq!(
            decode(&bytes),
            other(AddressDecodeErr::PatternsNotYetImplemented(*c))
        );
    }
    assert_eq!(
        decode(b"/*\0\0"),
        other(AddressDecodeErr::PatternsNotYetImplemented(b'*'))
    );
}

#[test]
fn address_with_an_unprintable_character_is_rejected() {
    for c in [1u8, 9, 10, 31, 127, 128, 200, 255] {
        let bytes = [b'/', b'a', b'b', b'c', c, 0, 0, 0];
        assert_eq!(
            decode(&bytes),
            other(AddressDecodeErr::NotPrintableAscii(c))
        );
    }
}

#[test]
fn address_with_bytes_after_the_null_is_rejected() {
    for bytes in [
        &b"/a\0b"[..],
        b"/a\0/",
        b"/ab\0\0\0\0"[..4].as_ref(),
        b"/abc\0\0x\0",
    ] {
        let expected = if bytes == b"/ab\0" {
            Ok(NONE.into_address("ab").unwrap())
        } else {
            other(AddressDecodeErr::NullThenNonNull)
        };
        assert_eq!(decode(bytes), expected);
    }
}

#[test]
fn address_that_runs_out_ends_or_is_misaligned() {
    assert_eq!(decode(b""), Err(Misaligned4B::End));
    assert_eq!(decode(b"/a"), Err(Misaligned4B::Misaligned));
    assert_eq!(decode(b"/abc"), Err(Misaligned4B::End));
    assert_eq!(decode(b"/abc/def"), Err(Misaligned4B::End));
    assert_eq!(decode(b"/abc/de"), Err(Misaligned4B::Misaligned));
    assert_eq!(decode(b"/abcd\0"), Err(Misaligned4B::Misaligned));
}

#[test]
fn address_leaves_the_rest_unread() {
    let mut stream = SliceStream::new(b"/foo\0\0\0\0,i\0\0\0\0\0\x05");
    let address = Address::decode(&mut stream).unwrap();
    assert_eq!(address, NONE.into_address("foo").unwrap());
    assert_eq!(collect(stream), b",i\0\0\0\0\0\x05");
}

#[test]
fn address_is_made_of_slices_and_borrowed_strings() {
    let segments = ["a", "b"];
    let from_slice = (&segments[..]).into_address("c").unwrap();
    assert_eq!(from_slice, ["a", "b"].into_address("c").unwrap());
    let borrowed: Vec<&&str> = segments.iter().collect();
    assert_eq!(borrowed.into_address(&"c"), Ok(from_slice));
    assert_eq!(collect((&"abc").into_into_addr()), b"abc");
}
