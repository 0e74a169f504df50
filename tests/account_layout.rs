use counter::{CounterAccount, LayoutError, ACCOUNT_DISCRIMINATOR};

#[test]
fn serialized_zero_is_discriminator_then_zeros() {
    let bytes = CounterAccount { count: 0 }.try_serialize();
    assert_eq!(bytes, vec![164, 8, 153, 71, 8, 44, 93, 22, 0, 0, 0, 0, 0, 0, 0, 0]);
}

#[test]
fn serialized_count_is_little_endian() {
    let bytes = CounterAccount { count: 0x0102_0304_0506_0708 }.try_serialize();
    assert_eq!(bytes.len(), 16);
    assert_eq!(&bytes[..8], &ACCOUNT_DISCRIMINATOR[..]);
    assert_eq!(&bytes[8..], &[8, 7, 6, 5, 4, 3, 2, 1][..]);
    let max = CounterAccount { count: u64::MAX }.try_serialize();
    assert_eq!(&max[8..], &[255u8; 8][..]);
}

#[test]
fn serialize_then_deserialize_round_trips() {
    for count in [0u64, 1, 2, 255, 256, 65_535, 1 << 40, u64::MAX - 1, u64::MAX] {
        let a = CounterAccount { count };
        assert_eq!(CounterAccount::try_deserialize(&a.try_serialize()), Ok(a));
    }
}

#[test]
fn deserialize_reads_count() {
    let mut data = ACCOUNT_DISCRIMINATOR.to_vec();
    data.extend_from_slice(&[3, 1, 0, 0, 0, 0, 0, 0]);
    assert_eq!(CounterAccount::try_deserialize(&data), Ok(CounterAccount { count: 259 }));
}

#[test]
fn deserialize_ignores_trailing_bytes() {
    let mut data = CounterAccount { count: 9 }.try_serialize();
    data.extend_from_slice(&[1, 2, 3]);
    assert_eq!(CounterAccount::try_deserialize(&data), Ok(CounterAccount { count: 9 }));
}

#[test]
fn deserialize_short_buffer_has_no_discriminator() {
    assert_eq!(CounterAccount::try_deserialize(&[]), Err(LayoutError::DiscriminatorNotFound));
    assert_eq!(
        CounterAccount::try_deserialize(&ACCOUNT_DISCRIMINATOR[..7]),
        Err(LayoutError::DiscriminatorNotFound)
    );
}

#[test]
fn deserialize_wrong_discriminator_mismatches() {
    let mut data = CounterAccount { count: 5 }.try_serialize();
    data[7] ^= 1;
    assert_eq!(CounterAccount::try_deserialize(&data), Err(LayoutError::DiscriminatorMismatch));
    let zeros = [0u8; 16];
    assert_eq!(CounterAccount::try_deserialize(&zeros), Err(LayoutError::DiscriminatorMismatch));
}

#[test]
fn deserialize_truncated_count_fails() {
    let data = CounterAccount { count: 5 }.try_serialize();
    assert_eq!(CounterAccount::try_deserialize(&data[..8]), Err(LayoutError::DidNotDeserialize));
    assert_eq!(CounterAccount::try_deserialize(&data[..15]), Err(LayoutError::DidNotDeserialize));
}
