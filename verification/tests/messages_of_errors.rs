//! What the errors say.

use osc_codec::{AddressDecodeErr, BlobDecodeErr, DynamicDecodeErr, StringDecodeErr, TagDecodeErr};

#[test]
fn address_errors_say_what_was_wrong() {
    assert_eq!(
        AddressDecodeErr::LeadingSlash { actual: b'a' }.to_string(),
        "OSC address missing leading slash (got 'a' instead)."
    );
    assert_eq!(
        AddressDecodeErr::NoMethod.to_string(),
        "OSC address missing a method, i.e. ending immediately after a '/'."
    );
    assert_eq!(
        AddressDecodeErr::EmptySegment.to_string(),
        "OSC address with a zero-sized segment, i.e. back-to-back slashes \"//\"."
    );
    assert_eq!(
        AddressDecodeErr::PatternsNotYetImplemented(b'*').to_string(),
        "OSC pattern matching not yet implemented (required for the character '*'). \
        (Want to help? Open a pull request with your implementation!)"
    );
    assert_eq!(
        AddressDecodeErr::NotPrintableAscii(1).to_string(),
        "OSC address should be entirely printable ASCII characters (got '\\x01')"
    );
    assert_eq!(
        AddressDecodeErr::NullThenNonNull.to_string(),
        "OSC address returned a null terminator, \
        but then the rest of its 4-byte chunk was non-null."
    );
}

#[test]
fn tag_errors_say_what_was_wrong() {
    assert_eq!(
        TagDecodeErr::UnrecognizedTypeTag(b'x').to_string(),
        "Unrecognized type tag character: 'x'"
    );
    assert_eq!(
        TagDecodeErr::MissingComma(b'/').to_string(),
        "Expected a comma to begin type tags but got '/'"
    );
    assert_eq!(
        TagDecodeErr::NullThenNonNull.to_string(),
        "OSC address returned a null terminator, \
        but then the rest of its 4-byte chunk was non-null."
    );
}

#[test]
fn string_and_blob_errors_say_what_was_wrong() {
    assert_eq!(
        StringDecodeErr::NonAscii(0x9d).to_string(),
        "Matched a non-ASCII character in an alleged OSC string: '\\x9d'."
    );
    assert_eq!(
        StringDecodeErr::NullThenNonNull.to_string(),
        "Matched a string's null terminator, \
        but the following padding bytes were non-null."
    );
    assert_eq!(
        BlobDecodeErr::NegativeSize.to_string(),
        "OSC blob size is negative. \
        This is almost surely a result of an earlier error that \
        offset bytes and interpreted something else as the size."
    );
    assert_eq!(
        BlobDecodeErr::TooLong.to_string(),
        "OSC blob longer than claimed: \
        expected a null padding byte but found non-null."
    );
    assert_eq!(
        BlobDecodeErr::NullThenNonNull.to_string(),
        "Matched a string's null terminator, \
        but the following padding bytes were non-null."
    );
}

#[test]
fn dynamic_errors_say_what_the_error_inside_says() {
    assert_eq!(
        DynamicDecodeErr::TypeTagErr(TagDecodeErr::MissingComma(b'i')).to_string(),
        TagDecodeErr::MissingComma(b'i').to_string()
    );
    assert_eq!(
        DynamicDecodeErr::from(TagDecodeErr::NullThenNonNull),
        DynamicDecodeErr::TypeTagErr(TagDecodeErr::NullThenNonNull)
    );
    assert_eq!(
        DynamicDecodeErr::StringErr(StringDecodeErr::NonAscii(200)).to_string(),
        StringDecodeErr::NonAscii(200).to_string()
    );
    assert_eq!(
        DynamicDecodeErr::BlobErr(BlobDecodeErr::NegativeSize).to_string(),
        BlobDecodeErr::NegativeSize.to_string()
    );
}

#[test]
fn bytes_in_messages_are_escaped() {
    let shown = |byte: u8| {
        let text = TagDecodeErr::UnrecognizedTypeTag(byte).to_string();
        text["Unrecognized type tag character: '".len()..text.len() - 1].to_string()
    };
    assert_eq!(shown(b'\t'), "\\t");
    assert_eq!(shown(b'\r'), "\\r");
    assert_eq!(shown(b'\n'), "\\n");
    assert_eq!(shown(b'\''), "\\'");
    assert_eq!(shown(b'"'), "\\\"");
    assert_eq!(shown(b'\\'), "\\\\");
    assert_eq!(shown(b' '), " ");
    assert_eq!(shown(b'~'), "~");
    assert_eq!(shown(0), "\\x00");
    assert_eq!(shown(0x1f), "\\x1f");
    assert_eq!(shown(0x7f), "\\x7f");
    assert_eq!(shown(0xab), "\\xab");
    assert_eq!(shown(0xff), "\\xff");
    for byte in 0..=255u8 {
        assert_eq!(shown(byte), core::ascii::escape_default(byte).to_string());
    }
}
