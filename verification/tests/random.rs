//! Random values, and what is made of them.

use osc_codec::{
    collect, sanitize_segment, sanitize_string, valid_address_character, Address, Atomic, Decode,
    DynamicBlob, DynamicString, Integer, IntoAddress, IntoAtomic, SliceStream, Tag, Tags,
};
use quickcheck::Gen;

#[test]
fn strings_are_cut_down_to_ascii_without_null() {
    assert_eq!(sanitize_string("plain").into_rust(), "plain");
    assert_eq!(sanitize_string("a\0b\u{e9}c\u{1F600}d").into_rust(), "abcd");
    assert_eq!(sanitize_string("\0\u{80}").into_rust(), "");
    assert_eq!(sanitize_string("\x01\x7f").into_rust(), "\x01\x7f");
}

#[test]
fn segments_are_cut_down_to_valid_characters() {
    assert_eq!(sanitize_segment("plain"), "plain");
    assert_eq!(sanitize_segment("a b/c*d\u{e9}e\0f{g}"), "abcdefg");
    assert_eq!(sanitize_segment(" #*,/?[]{}\x7f"), "");
}

#[test]
fn address_of_random_strings_keeps_what_is_valid() {
    let path = vec!["a b".to_string(), "/#".to_string(), "c".to_string()];
    assert_eq!(
        Address::from_arbitrary(path.clone(), "m?n".to_string()),
        Some(["ab", "c"].into_address("mn").unwrap())
    );
    assert_eq!(Address::from_arbitrary(path, " ".to_string()), None);
    assert_eq!(
        Address::from_arbitrary(vec![], "x".to_string()),
        Some(Vec::<&str>::new().into_address("x").unwrap())
    );
}

#[test]
fn nothing_is_made_by_a_generator_of_size_zero() {
    let mut g = Gen::new(0);
    assert_eq!(DynamicString::arbitrary(&mut g), None);
    assert_eq!(DynamicBlob::arbitrary(&mut g), None);
    assert_eq!(Tags::arbitrary(&mut g), None);
    assert_eq!(Address::arbitrary(&mut g), None);
}

#[test]
fn random_strings_round_trip() {
    let mut g = Gen::new(40);
    for _ in 0..200 {
        let original = DynamicString::arbitrary(&mut g).unwrap();
        let text = original.clone().into_rust();
        assert!(text.is_ascii() && !text.contains('\0'));
        assert_eq!(
            DynamicString::decode(&mut original.clone().into_iter()),
            Ok(original)
        );
    }
}

#[test]
fn random_addresses_round_trip() {
    let mut g = Gen::new(20);
    let mut made = 0;
    for _ in 0..400 {
        let Some(original) = Address::arbitrary(&mut g) else {
            continue;
        };
        made += 1;
        let (path, method) = original.clone().into_strings();
        for segment in path.iter().chain(Some(&method)) {
            assert!(!segment.is_empty());
            assert!(segment.bytes().all(valid_address_character));
        }
        assert_eq!(
            Address::decode(&mut original.clone().into_iter()),
            Ok(original)
        );
    }
    assert!(made > 0);
}

#[test]
fn random_tags_round_trip() {
    let mut g = Gen::new(30);
    for _ in 0..200 {
        let original = Tags::arbitrary(&mut g).unwrap();
        assert!(original.0.len() < 30);
        assert_eq!(
            Tags::decode(&mut original.clone().into_iter()),
            Ok(original)
        );
    }
    let mut seen = [false; 4];
    for _ in 0..200 {
        match Tag::arbitrary(&mut g) {
            Tag::Integer => seen[0] = true,
            Tag::Float => seen[1] = true,
            Tag::String => seen[2] = true,
            Tag::Blob => seen[3] = true,
        }
    }
    assert_eq!(seen, [true; 4]);
}

#[test]
fn random_bytes_read_as_an_address_are_written_back_the_same() {
    let mut g = Gen::new(24);
    for _ in 0..2000 {
        let original = DynamicBlob::arbitrary(&mut g).unwrap().into_rust();
        let Ok(decoded) = Address::decode(&mut SliceStream::new(&original)) else {
            continue;
        };
        let recoded = collect(decoded.into_iter());
        assert_eq!(&recoded[..], &original[..recoded.len()]);
    }
}

#[test]
fn random_integers_round_trip() {
    let mut g = Gen::new(10);
    for _ in 0..200 {
        let original = Integer::arbitrary(&mut g);
        assert_eq!(Integer::decode(&mut original.into_iter()), Ok(original));
    }
}

#[test]
fn shrinking_proposes_valid_values() {
    assert_eq!(Integer::new(0).shrink(), []);
    let smaller = Integer::new(100).shrink();
    assert!(!smaller.is_empty());
    assert_eq!(smaller[0], Integer::new(0));
    assert!(smaller.iter().all(|i| i.value() < 100 && i.value() >= 0));
    assert_eq!(
        Tag::Float.shrink(),
        [Tag::Integer, Tag::Float, Tag::String, Tag::Blob]
    );
    let text: DynamicString = "abc".to_string().into_atomic().unwrap();
    let smaller = text.shrink();
    assert!(!smaller.is_empty());
    for candidate in smaller {
        let candidate = candidate.into_rust();
        assert!(candidate.is_ascii() && !candidate.contains('\0'));
        assert_ne!(candidate, "abc");
    }
    let blob: DynamicBlob = vec![1u8, 2, 3].into_atomic().unwrap();
    let smaller = blob.shrink();
    assert!(!smaller.is_empty());
    assert!(smaller.iter().all(|b| b.clone().into_rust() != [1, 2, 3]));
    let address = ["ab", "c"].into_address("de").unwrap();
    let smaller = address.shrink();
    assert!(!smaller.is_empty());
    for candidate in smaller {
        assert_ne!(candidate, address);
        assert_eq!(
            Address::decode(&mut candidate.clone().into_iter()),
            Ok(candidate)
        );
    }
}

#[test]
fn candidates_that_are_valid_are_kept_in_order() {
    let strings = DynamicString::from_candidates(vec![
        "one".to_string(),
        "tw\0".to_string(),
        "".to_string(),
        "thr\u{e9}e".to_string(),
        "four".to_string(),
    ]);
    let texts: Vec<String> = strings.into_iter().map(|s| s.into_rust()).collect();
    assert_eq!(texts, ["one", "", "four"]);
    let addresses = Address::from_candidates(vec![
        (vec!["a".to_string()], "b".to_string()),
        (vec!["".to_string()], "b".to_string()),
        (vec![], "c d".to_string()),
        (vec![], "e".to_string()),
    ]);
    assert_eq!(
        addresses,
        [
            ["a"].into_address("b").unwrap(),
            Vec::<&str>::new().into_address("e").unwrap()
        ]
    );
}
