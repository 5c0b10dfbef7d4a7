//! The examples that come with OSC 1.0.

use osc_codec::{collect, AddressErr, Atomic, Float, IntoAtomic, IntoOsc, Tag, Tuple};

fn float(value: f32) -> Float {
    Float::from_bits(value.to_bits())
}

fn tag_bytes(tags: Vec<Tag>) -> Vec<u8> {
    tags.into_iter().map(u8::from).collect()
}

#[test]
fn string_osc() {
    assert!(collect("osc".into_atomic().unwrap().into_iter())
        .into_iter()
        .eq("osc\0".bytes()));
}

#[test]
fn string_data() {
    assert!(collect("data".into_atomic().unwrap().into_iter())
        .into_iter()
        .eq("data\0\0\0\0".bytes()));
}

#[test]
fn type_tag_f() {
    assert!(().type_tag().into_iter().eq(core::iter::empty()));
}

#[test]
fn type_tag_iisfff() {
    assert!(tag_bytes(
        (
            0.into_atomic().unwrap(),
            0.into_atomic().unwrap(),
            "".into_atomic().unwrap(),
            float(0.0).into_atomic().unwrap(),
            float(0.0).into_atomic().unwrap(),
            float(0.0).into_atomic().unwrap(),
        )
            .type_tag()
    )
    .into_iter()
    .eq("iisfff".bytes()));
}

#[test]
fn type_tag_none() {
    assert!(tag_bytes((float(0.0).into_atomic().unwrap(),).type_tag())
        .into_iter()
        .eq("f".bytes()));
}

#[test]
fn type_tag_ibb() {
    let empty: &[u8] = &[];
    assert!(tag_bytes(
        (
            0.into_atomic().unwrap(),
            empty.into_atomic().unwrap(),
            empty.into_atomic().unwrap()
        )
            .type_tag()
    )
    .into_iter()
    .eq("ibb".bytes()));
}

#[test]
fn message_oscillator_4_frequency() {
    let msg = float(440.)
        .into_osc(["oscillator", "4"], "frequency")
        .unwrap();
    assert!(collect(msg.into_iter()).into_iter().eq(b"\
        /oscillator/4/frequency\0\
        ,f\0\0\
        \x43\xDC\x00\x00"
        .iter()
        .copied()));
}

#[test]
fn message_foo() -> Result<(), AddressErr> {
    let none: [&str; 0] = [];
    let osc = (1000, -1, "hello", float(1.234), float(5.678)).into_osc(none, "foo")?;
    let by_hand = b"\
        /foo\0\0\0\0\
        ,iisff\0\0\
        \x00\x00\x03\xE8\
        \xFF\xFF\xFF\xFF\
        hello\0\0\0\
        \x3F\x9D\xF3\xB6\
        \x40\xB5\xB2\x2D";
    assert!(collect(osc.into_iter())
        .into_iter()
        .eq(by_hand.iter().copied()));
    Ok(())
}
