//! Padding to four bytes, and reading four bytes at a time.

use osc_codec::{
    collect, Aligned4B, ArrayStream, Batch, Batched, ByteStream, Chain, Decode, Empty,
    Misaligned4B, Once, SliceStream, VecStream,
};

type Unit = Result<Aligned4B<()>, Misaligned4B<()>>;

#[test]
fn unit_read_reports_a_clean_end() {
    let data: [u8; 0] = [];
    let mut s = SliceStream::new(&data);
    let r: Unit = Aligned4B::decode(&mut s);
    assert_eq!(r, Err(Misaligned4B::End));
}

#[test]
fn unit_read_reports_a_partial_unit() {
    for data in [&[1u8][..], &[1, 2], &[1, 2, 3]] {
        let mut s = SliceStream::new(data);
        let r: Unit = Aligned4B::decode(&mut s);
        assert_eq!(r, Err(Misaligned4B::Misaligned));
        assert_eq!(collect(s), Vec::<u8>::new());
    }
}

#[test]
fn unit_read_takes_four_bytes_in_order() {
    let mut s = SliceStream::new(&[1, 2, 3, 4, 5]);
    let r: Unit = Aligned4B::decode(&mut s);
    let unit = r.unwrap();
    assert_eq!((unit.0, unit.1, unit.2, unit.3), (1, 2, 3, 4));
    assert_eq!(unit.into_iter(), [1, 2, 3, 4]);
    assert_eq!(collect(s), [5]);
}

#[test]
fn four_byte_decode() {
    for size in 0..40usize {
        let v: Vec<u8> = (0..size).map(|i| i as u8).collect();
        let mut iter = VecStream::new(v);
        for k in 0..(size >> 2) {
            let r: Unit = Aligned4B::decode(&mut iter);
            let unit = r.unwrap();
            assert_eq!(unit.0 as usize, 4 * k);
            assert_eq!(unit.3 as usize, 4 * k + 3);
        }
        let r: Unit = Aligned4B::decode(&mut iter);
        if size % 4 == 0 {
            assert_eq!(r, Err(Misaligned4B::End));
        } else {
            assert_eq!(r, Err(Misaligned4B::Misaligned));
        }
        assert_eq!(iter.next(), None);
    }
}

#[test]
fn padding_goes_up_to_the_next_multiple_of_four() {
    let expected: [&[u8]; 9] = [
        &[],
        &[7, 0, 0, 0],
        &[7, 7, 0, 0],
        &[7, 7, 7, 0],
        &[7, 7, 7, 7],
        &[7, 7, 7, 7, 7, 0, 0, 0],
        &[7, 7, 7, 7, 7, 7, 0, 0],
        &[7, 7, 7, 7, 7, 7, 7, 0],
        &[7, 7, 7, 7, 7, 7, 7, 7],
    ];
    for (len, padded) in expected.iter().enumerate() {
        let input = vec![7u8; len];
        assert_eq!(&collect(VecStream::new(input).batch()), padded);
    }
}

#[test]
fn padding_keeps_the_input_and_adds_only_zeros() {
    for len in 0..50usize {
        let input: Vec<u8> = (0..len)
            .map(|i| (i as u8).wrapping_mul(37).wrapping_add(1))
            .collect();
        let padded = collect(Batched::new(SliceStream::new(&input)));
        assert_eq!(padded.len() % 4, 0);
        assert!(padded.len() >= len && padded.len() < len + 4);
        assert_eq!(&padded[..len], &input[..]);
        assert!(padded[len..].iter().all(|b| *b == 0));
    }
}

#[test]
fn padding_is_lazy_and_can_be_undone() {
    let mut batched = SliceStream::new(&[1, 2, 3, 4, 5, 6]).batch();
    assert_eq!(batched.next(), Some(1));
    assert_eq!(collect(batched.unbatch()), [5, 6]);
    let batched = Batched::new(SliceStream::new(&[1, 2, 3, 4, 5, 6]));
    assert_eq!(collect(batched.unbatch()), [1, 2, 3, 4, 5, 6]);
}

#[test]
fn padding_twice_is_padding_once() {
    let once = collect(SliceStream::new(&[9, 8, 7]).batch());
    let twice = collect(SliceStream::new(&[9, 8, 7]).batch().batch());
    assert_eq!(once, twice);
    assert_eq!(once, [9, 8, 7, 0]);
}

#[test]
fn sources_hand_out_their_bytes_in_order() {
    assert_eq!(collect(Empty), Vec::<u8>::new());
    assert_eq!(collect(Once::new(5)), [5]);
    assert_eq!(collect(ArrayStream::new([1, 2, 3])), [1, 2, 3]);
    assert_eq!(
        collect(Chain::new(Once::new(5), VecStream::new(vec![6, 7]))),
        [5, 6, 7]
    );
    let mut once = Once::new(5);
    assert_eq!(once.next(), Some(5));
    assert_eq!(once.next(), None);
    assert_eq!(once.next(), None);
    let mut chain = Chain::new(Empty, Chain::new(Once::new(1), Empty));
    assert_eq!(chain.next(), Some(1));
    assert_eq!(chain.next(), None);
}
