use tobytcp::protocol::DecodeError;
use tobytcp::varint::{decode_variable_partial, encode_variable, PartialPrefix, PrefixDecode};

#[test]
fn small_lengths_take_one_byte() {
    assert_eq!(encode_variable(0), vec![0]);
    assert_eq!(encode_variable(1), vec![1]);
    assert_eq!(encode_variable(127), vec![127]);
}

#[test]
fn groups_come_most_significant_first() {
    assert_eq!(encode_variable(128), vec![0x81, 0x00]);
    assert_eq!(encode_variable(255), vec![0x81, 0x7f]);
    assert_eq!(encode_variable(256), vec![0x82, 0x00]);
    assert_eq!(encode_variable(300), vec![0x82, 0x2c]);
    assert_eq!(encode_variable(16383), vec![0xff, 0x7f]);
    assert_eq!(encode_variable(16384), vec![0x81, 0x80, 0x00]);
    assert_eq!(encode_variable(4294967295), vec![0x8f, 0xff, 0xff, 0xff, 0x7f]);
    assert_eq!(
        encode_variable(u64::MAX),
        vec![0x81, 0xff, 0xff, 0xff, 0xff, 0xff, 0xff, 0xff, 0xff, 0x7f]
    );
}

#[test]
fn variable_prefix_round_trips_at_the_edges() {
    let lengths: [(u64, usize); 11] = [
        (0, 1),
        (1, 1),
        (127, 1),
        (128, 2),
        (255, 2),
        (256, 2),
        (16383, 2),
        (16384, 3),
        (4294967295, 5),
        (1 << 63, 10),
        (u64::MAX, 10),
    ];
    for (length, size) in lengths {
        let prefix = encode_variable(length);
        assert_eq!(prefix.len(), size);
        assert_eq!(
            decode_variable_partial(&prefix, None),
            Ok(PrefixDecode::Complete { length, consumed: size })
        );
    }
}

#[test]
fn every_byte_but_the_last_asks_for_more() {
    for length in [0u64, 5, 128, 99999, 1 << 40, u64::MAX] {
        let prefix = encode_variable(length);
        let (last, others) = prefix.split_last().unwrap();
        assert!(*last < 128);
        assert!(others.iter().all(|b| *b >= 128));
    }
}

#[test]
fn one_byte_at_a_time_resumes_from_the_partial_prefix() {
    for length in [0u64, 127, 128, 16384, 4294967295, u64::MAX] {
        let prefix = encode_variable(length);
        let mut partial: Option<PartialPrefix> = None;
        for (i, byte) in prefix.iter().enumerate() {
            match decode_variable_partial(&[*byte], partial) {
                Ok(PrefixDecode::Incomplete(next)) => {
                    assert!(i + 1 < prefix.len());
                    assert_eq!(next.consumed, i + 1);
                    partial = Some(next);
                }
                Ok(PrefixDecode::Complete { length: got, consumed }) => {
                    assert_eq!(i + 1, prefix.len());
                    assert_eq!(got, length);
                    assert_eq!(consumed, prefix.len());
                }
                Err(e) => panic!("{:?}", e),
            }
        }
    }
}

#[test]
fn partial_prefix_holds_the_digits_read_so_far() {
    assert_eq!(
        decode_variable_partial(&[0x81, 0x80], None),
        Ok(PrefixDecode::Incomplete(PartialPrefix { value: 128, consumed: 2 }))
    );
    assert_eq!(
        decode_variable_partial(&[0x00], Some(PartialPrefix { value: 128, consumed: 2 })),
        Ok(PrefixDecode::Complete { length: 16384, consumed: 3 })
    );
    assert_eq!(
        decode_variable_partial(&[], None),
        Ok(PrefixDecode::Incomplete(PartialPrefix { value: 0, consumed: 0 }))
    );
    assert_eq!(
        decode_variable_partial(&[], Some(PartialPrefix { value: 5, consumed: 1 })),
        Ok(PrefixDecode::Incomplete(PartialPrefix { value: 5, consumed: 1 }))
    );
}

#[test]
fn bytes_behind_the_prefix_are_not_counted() {
    assert_eq!(
        decode_variable_partial(&[0x82, 0x2c, 0xff, 0xff, 0x01], None),
        Ok(PrefixDecode::Complete { length: 300, consumed: 2 })
    );
    assert_eq!(
        decode_variable_partial(&[0x05, 0x80, 0x80], None),
        Ok(PrefixDecode::Complete { length: 5, consumed: 1 })
    );
}

#[test]
fn a_length_past_64_bits_is_an_overflow() {
    assert_eq!(
        decode_variable_partial(
            &[0x82, 0x80, 0x80, 0x80, 0x80, 0x80, 0x80, 0x80, 0x80, 0x00],
            None
        ),
        Err(DecodeError::LengthOverflow)
    );
    assert_eq!(
        decode_variable_partial(&[0xff; 10], None),
        Err(DecodeError::LengthOverflow)
    );
    assert_eq!(
        decode_variable_partial(
            &[0x00],
            Some(PartialPrefix { value: (u64::MAX >> 7) + 1, consumed: 3 })
        ),
        Err(DecodeError::LengthOverflow)
    );
    assert_eq!(
        decode_variable_partial(
            &[0x7f],
            Some(PartialPrefix { value: u64::MAX >> 7, consumed: 3 })
        ),
        Ok(PrefixDecode::Complete { length: u64::MAX, consumed: 4 })
    );
}

#[test]
fn an_eleventh_byte_is_one_too_many() {
    let ten = [0x80u8; 10];
    assert_eq!(
        decode_variable_partial(&ten, None),
        Ok(PrefixDecode::Incomplete(PartialPrefix { value: 0, consumed: 10 }))
    );
    assert_eq!(
        decode_variable_partial(&[0x80; 11], None),
        Err(DecodeError::PrefixTooLong)
    );
    assert_eq!(
        decode_variable_partial(&[0x01], Some(PartialPrefix { value: 0, consumed: 10 })),
        Err(DecodeError::PrefixTooLong)
    );
    assert_eq!(
        decode_variable_partial(&[0x80, 0x80, 0x80, 0x80, 0x80, 0x80, 0x80, 0x80, 0x80, 0x07], None),
        Ok(PrefixDecode::Complete { length: 7, consumed: 10 })
    );
}
