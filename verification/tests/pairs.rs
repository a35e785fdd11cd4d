use scrubber::counts::{find_field, is_version_2, number_from_decoded, read_count_field};
use scrubber::{
    encode_pair, get_number_of_inputs_and_outputs, write_byte, write_bytes, Error,
    GlobalInsensitive, Key, Pair,
};

fn pair(type_value: u8, key: &[u8], value: &[u8]) -> Pair {
    Pair { key: Key { type_value, key: key.to_vec() }, value: value.to_vec() }
}

fn encoded(pair: &Pair) -> Vec<u8> {
    let cap = pair.key.key.len() + pair.value.len() + 32;
    let mut buf = vec![0u8; cap];
    let mut w: &mut [u8] = &mut buf;
    encode_pair(&mut w, pair);
    let written = cap - w.len();
    buf.truncate(written);
    buf
}

fn decoded(bytes: &[u8]) -> (Result<Option<Pair>, Error>, Vec<u8>) {
    let mut input = bytes;
    let result = Pair::decode(&mut input);
    (result, input.to_vec())
}

#[test]
fn bytes_are_written_at_the_front() {
    let mut buf = [9u8; 6];
    let mut w: &mut [u8] = &mut buf;
    write_bytes(&mut w, &[1, 2, 3]);
    assert_eq!(w.len(), 3);
    write_byte(&mut w, 4);
    assert_eq!(w.len(), 2);
    write_bytes(&mut w, &[]);
    assert_eq!(w.len(), 2);
    assert_eq!(buf, [1, 2, 3, 4, 9, 9]);
}

#[test]
fn a_buffer_can_be_filled() {
    let mut buf = [0u8; 2];
    let mut w: &mut [u8] = &mut buf;
    write_bytes(&mut w, &[7, 8]);
    assert!(w.is_empty());
    assert_eq!(buf, [7, 8]);
}

#[test]
fn pair_is_encoded_with_lengths() {
    assert_eq!(encoded(&pair(0x06, &[0x02, 0x03], &[0xFF])), vec![3, 6, 2, 3, 1, 0xFF]);
    assert_eq!(encoded(&pair(0x00, &[], &[])), vec![1, 0, 0]);
}

#[test]
fn long_lengths_are_little_endian() {
    let mut expected = vec![0xFD, 0xFD, 0x00, 0x01];
    expected.extend(vec![5u8; 252]);
    expected.extend([0xFC]);
    expected.extend(vec![6u8; 252]);
    assert_eq!(encoded(&pair(0x01, &[5; 252], &[6; 252])), expected);

    let mut expected = vec![1, 7, 0xFE, 0x04, 0x03, 0x02, 0x00];
    expected.extend(vec![8u8; 0x020304]);
    assert_eq!(encoded(&pair(0x07, &[], &vec![8u8; 0x020304])), expected);
}

#[test]
fn pair_written_is_read_back() {
    for (key_len, value_len) in
        [(0, 0), (1, 1), (251, 252), (252, 253), (253, 254), (300, 0xFFFF), (2, 0x10000)]
    {
        let original = pair(0x42, &vec![1u8; key_len], &vec![2u8; value_len]);
        let mut bytes = encoded(&original);
        bytes.extend([3, 4, 5]);
        assert_eq!(decoded(&bytes), (Ok(Some(original)), vec![3, 4, 5]));
    }
}

#[test]
fn pair_read_is_written_back() {
    let bytes = [2, 0x10, 0xAB, 3, 1, 2, 3];
    let (result, rest) = decoded(&bytes);
    assert_eq!(rest, Vec::<u8>::new());
    assert_eq!(encoded(&result.unwrap().unwrap()), bytes.to_vec());
}

#[test]
fn zero_byte_ends_a_map() {
    assert_eq!(decoded(&[0, 1, 2]), (Ok(None), vec![1, 2]));
}

#[test]
fn short_input_is_read_to_its_end() {
    let eof = || Err(Error::UnexpectedEof);
    assert_eq!(decoded(&[]), (eof(), vec![]));
    assert_eq!(decoded(&[0xFD, 1]), (eof(), vec![]));
    assert_eq!(decoded(&[0xFF, 1, 2, 3, 4, 5, 6, 7]), (eof(), vec![]));
    assert_eq!(decoded(&[1]), (eof(), vec![]));
    assert_eq!(decoded(&[4, 1, 2]), (eof(), vec![]));
    assert_eq!(decoded(&[1, 1]), (eof(), vec![]));
    assert_eq!(decoded(&[1, 1, 2, 3]), (eof(), vec![]));
    assert_eq!(decoded(&[1, 1, 0xFE, 1, 1]), (eof(), vec![]));
}

#[test]
fn overlong_lengths_are_refused() {
    let eof = || Err(Error::UnexpectedEof);
    assert_eq!(decoded(&[0xFD, 0xFC, 0x00, 9, 9]), (eof(), vec![9, 9]));
    assert_eq!(decoded(&[0xFE, 0xFF, 0xFF, 0x00, 0x00, 9]), (eof(), vec![9]));
    assert_eq!(
        decoded(&[0xFF, 0xFF, 0xFF, 0xFF, 0xFF, 0x00, 0x00, 0x00, 0x00, 9]),
        (eof(), vec![9])
    );
    assert_eq!(decoded(&[1, 7, 0xFD, 0x01, 0x00, 9]), (eof(), vec![9]));
}

#[test]
fn key_size_limit() {
    let limit = 4_000_000;
    let largest = pair(1, &vec![7u8; limit], &[2]);
    assert_eq!(decoded(&encoded(&largest)), (Ok(Some(largest)), vec![]));
    let over = encoded(&pair(1, &vec![7u8; limit + 1], &[2]));
    let (result, rest) = decoded(&over);
    assert_eq!(result, Err(Error::UnexpectedEof));
    assert_eq!(rest.len(), over.len() - 5);
}

#[test]
fn value_size_limit_includes_its_length() {
    let largest = pair(1, &[], &vec![7u8; 4_000_000 - 5]);
    assert_eq!(decoded(&encoded(&largest)), (Ok(Some(largest)), vec![]));
    let over = encoded(&pair(1, &[], &vec![7u8; 4_000_000 - 4]));
    assert_eq!(decoded(&over), (Err(Error::UnexpectedEof), vec![7]));
}

#[test]
fn value_length_is_cut_to_a_usize() {
    let bytes = [1, 0x03, 0xFF, 1, 0, 0, 0, 1, 0, 0, 0, 0xAA];
    let expected = if usize::BITS == 64 {
        Err(Error::UnexpectedEof)
    } else {
        Ok(Some(pair(0x03, &[], &[0xAA])))
    };
    assert_eq!(decoded(&bytes), (expected, vec![]));
}

#[test]
fn first_field_with_an_empty_key_is_found() {
    let map = [pair(4, &[1], &[1]), pair(5, &[], &[2]), pair(4, &[], &[3]), pair(4, &[], &[4])];
    assert_eq!(find_field(&map, 4), Some(&vec![3]));
    assert_eq!(find_field(&map, 5), Some(&vec![2]));
    assert_eq!(find_field(&map, 6), None);
}

#[test]
fn version_is_the_first_byte() {
    assert!(is_version_2(&[pair(0xFB, &[], &[2, 0, 0, 0])]));
    assert!(is_version_2(&[pair(0xFB, &[], &[2])]));
    assert!(!is_version_2(&[pair(0xFB, &[], &[0, 0, 0, 0])]));
    assert!(!is_version_2(&[pair(0xFB, &[], &[])]));
    assert!(!is_version_2(&[pair(0xFB, &[1], &[2])]));
    assert!(!is_version_2(&[pair(0xFB, &[], &[0]), pair(0xFB, &[], &[2])]));
    assert!(!is_version_2(&[]));
}

#[test]
fn count_fields_are_compact_sizes() {
    let count = |value: &[u8]| {
        read_count_field(&[pair(4, &[], value)], GlobalInsensitive::InputCount)
    };
    assert_eq!(count(&[7]), Some(7));
    assert_eq!(count(&[0xFD, 0x34, 0x12]), Some(0x1234));
    assert_eq!(count(&[0xFF, 8, 7, 6, 5, 4, 3, 2, 1]), Some(0x0102030405060708));
    assert_eq!(count(&[]), None);
    assert_eq!(count(&[7, 0]), None);
    assert_eq!(count(&[0xFD, 7, 0]), None);
    assert_eq!(count(&[0xFD, 7]), None);
    assert_eq!(read_count_field(&[pair(4, &[], &[7])], GlobalInsensitive::OutputCount), None);
}

#[test]
fn counts_of_version_2_are_stated() {
    let version = || pair(0xFB, &[], &[2, 0, 0, 0]);
    assert_eq!(
        get_number_of_inputs_and_outputs(&[version(), pair(5, &[], &[3]), pair(4, &[], &[2])]),
        Ok((2, 3))
    );
    assert_eq!(
        get_number_of_inputs_and_outputs(&[version(), pair(4, &[], &[2])]),
        Err(Error::InvalidGlobal)
    );
    assert_eq!(
        get_number_of_inputs_and_outputs(&[version(), pair(5, &[], &[2])]),
        Err(Error::InvalidGlobal)
    );
}

#[test]
fn counts_of_version_0_are_those_of_the_transaction() {
    let mut tx = vec![2, 0, 0, 0, 2];
    for _ in 0..2 {
        tx.extend([0u8; 36]);
        tx.push(0);
        tx.extend([0xFFu8; 4]);
    }
    tx.push(1);
    tx.extend([5u8, 0, 0, 0, 0, 0, 0, 0, 1, 0x51]);
    tx.extend([0u8; 4]);
    assert_eq!(get_number_of_inputs_and_outputs(&[pair(0, &[], &tx)]), Ok((2, 1)));
    assert_eq!(
        get_number_of_inputs_and_outputs(&[pair(4, &[], &[9]), pair(0, &[], &tx)]),
        Ok((2, 1))
    );
    tx.push(0);
    assert_eq!(
        get_number_of_inputs_and_outputs(&[pair(0, &[], &tx)]),
        Err(Error::InvalidGlobal)
    );
    assert_eq!(get_number_of_inputs_and_outputs(&[]), Err(Error::InvalidGlobal));
}

#[test]
fn decoded_transaction_gives_the_counts() {
    assert_eq!(number_from_decoded(Some((3, 4))), Ok((3, 4)));
    assert_eq!(number_from_decoded(None), Err(Error::InvalidGlobal));
}
