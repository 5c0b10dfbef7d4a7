//! Inputs that random testing once reduced a failure to.

use osc_codec::{collect, Address, AddressDecodeErr, Decode, Misaligned4B, SliceStream};

#[test]
fn address_roundtrip_bytes_reduced_1() {
    let original = vec![47, 1, 0, 1];
    let Ok(decoded) = Address::decode(&mut SliceStream::new(&original)) else {
        return;
    };
    let recoded: Vec<_> = collect(decoded.into_iter());
    println!("{original:#?} --> {recoded:#?}");
    assert_eq!(recoded, original);
}

#[test]
fn address_roundtrip_bytes_reduced_2() {
    let original = vec![47, 128, 0, 0];
    let Ok(decoded) = Address::decode(&mut SliceStream::new(&original)) else {
        return;
    };
    let recoded: Vec<_> = collect(decoded.into_iter());
    println!("{original:#?} --> {recoded:#?}");
    assert_eq!(recoded, original);
}

#[test]
fn control_byte_in_address_is_reported() {
    let original = [0x2F, 0x01, 0x00, 0x01];
    assert_eq!(
        Address::decode(&mut SliceStream::new(&original)),
        Err(Misaligned4B::Other(AddressDecodeErr::NotPrintableAscii(1)))
    );
}

#[test]
fn byte_above_ascii_in_address_is_reported() {
    let original = [47, 128, 0, 0];
    assert_eq!(
        Address::decode(&mut SliceStream::new(&original)),
        Err(Misaligned4B::Other(AddressDecodeErr::NotPrintableAscii(
            128
        )))
    );
}
