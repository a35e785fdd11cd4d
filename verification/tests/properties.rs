use scrubber::scrub::scrub_body;
use scrubber::{
    encode_pair, scrub, Error, GlobalInsensitive, InputInsensitive, Key, OutputInsensitive, Pair,
    MAGIC,
};

fn encoded_pair(type_value: u8, key: &[u8], value: &[u8]) -> Vec<u8> {
    let pair = Pair { key: Key { type_value, key: key.to_vec() }, value: value.to_vec() };
    let cap = key.len() + value.len() + 32;
    let mut buf = vec![0u8; cap];
    let mut w: &mut [u8] = &mut buf;
    encode_pair(&mut w, &pair);
    let written = cap - w.len();
    buf.truncate(written);
    buf
}

fn v2_psbt(n_inputs: u8, n_outputs: u8, extra_global: &[u8], maps: &[u8]) -> Vec<u8> {
    let mut psbt = MAGIC.to_vec();
    psbt.extend(encoded_pair(0xFB, &[], &[2, 0, 0, 0]));
    psbt.extend(encoded_pair(0x02, &[], &[2, 0, 0, 0]));
    psbt.extend(encoded_pair(0x04, &[], &[n_inputs]));
    psbt.extend(encoded_pair(0x05, &[], &[n_outputs]));
    psbt.extend(extra_global);
    psbt.push(0x00);
    psbt.extend(maps);
    psbt
}

fn v0_psbt(extra_global: &[u8], maps: &[u8]) -> Vec<u8> {
    let mut tx = vec![1, 0, 0, 0, 1];
    tx.extend([0u8; 36]);
    tx.push(0);
    tx.extend([0xFFu8; 4]);
    tx.push(1);
    tx.extend([0xE8u8, 3, 0, 0, 0, 0, 0, 0, 0]);
    tx.extend([0u8; 4]);
    let mut psbt = MAGIC.to_vec();
    psbt.extend(extra_global);
    psbt.extend(encoded_pair(0x00, &[], &tx));
    psbt.push(0x00);
    psbt.extend(maps);
    psbt
}

/// A map with one pair of every key type.
fn full_map(value: &[u8]) -> Vec<u8> {
    let mut map = Vec::new();
    for type_value in 0..=255u8 {
        map.extend(encoded_pair(type_value, &[0xAA], value));
    }
    map.push(0x00);
    map
}

fn samples() -> Vec<Vec<u8>> {
    let full = full_map(&[1, 2, 3]);
    let unended = full[..full.len() - 1].to_vec();
    let two = [full.clone(), full.clone()].concat();
    vec![
        v2_psbt(0, 0, &[], &[]),
        v2_psbt(0, 0, &unended, &[]),
        v2_psbt(1, 1, &unended, &two),
        v2_psbt(2, 0, &[], &two),
        v2_psbt(0, 2, &[], &two),
        v2_psbt(1, 1, &[], &[0, 0]),
        v0_psbt(&[], &two),
        v0_psbt(&unended, &[0, 0]),
    ]
}

fn occurs(part: &[u8], whole: &[u8]) -> bool {
    whole.windows(part.len()).any(|w| w == part)
}

#[test]
fn idempotent() {
    for psbt in samples() {
        let once = scrub(&psbt).unwrap();
        assert_eq!(scrub(&once), Ok(once));
    }
}

#[test]
fn output_is_valid_psbt() {
    for psbt in samples() {
        assert!(scrub(&scrub(&psbt).unwrap()).is_ok());
    }
}

#[test]
fn output_is_not_longer() {
    for psbt in samples() {
        assert!(scrub(&psbt).unwrap().len() <= psbt.len());
    }
}

#[test]
fn sensitive_fields_absent_from_output() {
    for sensitive_type in [0x02u8, 0x06, 0x16, 0x17, 0xFC] {
        let pair = encoded_pair(sensitive_type, &[0xAA], &[0xBB]);
        let psbt = v2_psbt(1, 0, &[], &[&pair[..], &[0]].concat());
        let result = scrub(&psbt).unwrap();
        assert!(!occurs(&pair, &result));
        assert_eq!(result, v2_psbt(1, 0, &[], &[0]));
    }
}

#[test]
fn insensitive_fields_preserved() {
    for value in [vec![], vec![7u8], vec![9u8; 64], vec![3u8; 300]] {
        for key in [
            GlobalInsensitive::UnsignedTx,
            GlobalInsensitive::TxVersion,
            GlobalInsensitive::FallbackLocktime,
            GlobalInsensitive::InputCount,
            GlobalInsensitive::OutputCount,
            GlobalInsensitive::TxModifiable,
            GlobalInsensitive::Version,
        ] {
            let pair = encoded_pair(key.key_type(), &[], &value);
            let psbt = v2_psbt(0, 0, &pair, &[]);
            assert!(occurs(&pair, &scrub(&psbt).unwrap()));
        }
        for key in [
            InputInsensitive::NonWitnessUtxo,
            InputInsensitive::WitnessUtxo,
            InputInsensitive::SighashType,
            InputInsensitive::RedeemScript,
            InputInsensitive::WitnessScript,
            InputInsensitive::FinalScriptsig,
            InputInsensitive::FinalScriptwitness,
            InputInsensitive::PreviousTxid,
            InputInsensitive::OutputIndex,
            InputInsensitive::Sequence,
            InputInsensitive::RequiredTimeLocktime,
            InputInsensitive::RequiredHeightLocktime,
            InputInsensitive::TapKeySig,
            InputInsensitive::TapScriptSig,
            InputInsensitive::TapLeafScript,
        ] {
            let pair = encoded_pair(key.key_type(), &[], &value);
            let psbt = v2_psbt(1, 0, &[], &[&pair[..], &[0]].concat());
            assert!(occurs(&pair, &scrub(&psbt).unwrap()));
        }
        for key in [OutputInsensitive::Amount, OutputInsensitive::Script] {
            let pair = encoded_pair(key.key_type(), &[], &value);
            let psbt = v2_psbt(0, 1, &[], &[&pair[..], &[0]].concat());
            assert!(occurs(&pair, &scrub(&psbt).unwrap()));
        }
    }
}

#[test]
fn exactly_the_insensitive_fields_are_left_in_their_order() {
    let left = |types: &[u8]| {
        let mut map = Vec::new();
        for type_value in types {
            map.extend(encoded_pair(*type_value, &[0xAA], &[5]));
        }
        map
    };
    let full = full_map(&[5]);
    let psbt = v2_psbt(
        1,
        1,
        &full[..full.len() - 1],
        &[full.clone(), full.clone()].concat(),
    );
    let mut maps = left(&[
        0x00, 0x01, 0x03, 0x04, 0x05, 0x07, 0x08, 0x0e, 0x0f, 0x10, 0x11, 0x12, 0x13, 0x14, 0x15,
    ]);
    maps.push(0);
    maps.extend(left(&[0x03, 0x04]));
    maps.push(0);
    let expected = v2_psbt(1, 1, &left(&[0x00, 0x02, 0x03, 0x04, 0x05, 0x06, 0xFB]), &maps);
    assert_eq!(scrub(&psbt), Ok(expected));
}

#[test]
fn trailing_bytes_are_dropped() {
    for psbt in samples() {
        let mut longer = psbt.clone();
        longer.extend([1, 2, 3]);
        assert_eq!(scrub(&longer), scrub(&psbt));
    }
}

#[test]
fn every_truncation_is_refused() {
    let maps = [&encoded_pair(0x01, &[], &[0xAA])[..], &[0, 0]].concat();
    for psbt in [v2_psbt(1, 1, &[], &maps), v0_psbt(&[], &maps)] {
        assert!(scrub(&psbt).is_ok());
        for len in 0..psbt.len() {
            let expected = if len < 5 { Error::InvalidMagic } else { Error::UnexpectedEof };
            assert_eq!(scrub(&psbt[..len]), Err(expected));
        }
    }
}

#[test]
fn clean_psbt_is_unchanged() {
    let maps = [
        &encoded_pair(0x0e, &[1, 2], &vec![7u8; 0x1_0000])[..],
        &[0],
        &encoded_pair(0x03, &[], &[1, 0, 0, 0, 0, 0, 0, 0])[..],
        &[0],
    ]
    .concat();
    for psbt in [v2_psbt(1, 1, &[], &maps), v0_psbt(&[], &maps)] {
        assert_eq!(scrub(&psbt), Ok(psbt));
    }
}

#[test]
fn huge_input_count_is_refused() {
    let mut psbt = MAGIC.to_vec();
    psbt.extend(encoded_pair(0xFB, &[], &[2]));
    psbt.extend(encoded_pair(0x04, &[], &[0xFF; 9]));
    psbt.extend(encoded_pair(0x05, &[], &[0]));
    psbt.extend([0, 0, 0]);
    assert_eq!(scrub(&psbt), Err(Error::UnexpectedEof));
}

#[test]
fn body_is_scrubbed_for_given_counts() {
    let global = [
        Pair { key: Key { type_value: 0x09, key: vec![] }, value: vec![1] },
        Pair { key: Key { type_value: 0x03, key: vec![] }, value: vec![2] },
    ];
    let maps = [1, 0x01, 1, 8, 1, 0x06, 1, 9, 0, 1, 0x04, 0, 0, 77];
    let mut expected = MAGIC.to_vec();
    expected.extend([1, 0x03, 1, 2, 0]);
    expected.extend([1, 0x01, 1, 8, 0]);
    expected.extend([1, 0x04, 0, 0]);
    assert_eq!(scrub_body(64, &global, &maps, 1, 1), Ok(expected));
    assert_eq!(scrub_body(64, &global, &maps, 1, 2), Err(Error::UnexpectedEof));
}

#[test]
fn output_is_input_without_sensitive_pairs_and_trailing_bytes() {
    let pieces = [
        (true, MAGIC.to_vec()),
        (false, encoded_pair(0x01, &[7; 78], &[1, 2, 3, 4])),
        (true, encoded_pair(0xFB, &[], &[2, 0, 0, 0])),
        (true, encoded_pair(0x04, &[], &[2])),
        (false, encoded_pair(0xFC, &[0xAA], &[5; 300])),
        (true, encoded_pair(0x05, &[], &[1])),
        (true, vec![0]),
        (false, encoded_pair(0x06, &[2; 33], &[1, 2, 3, 4])),
        (true, encoded_pair(0x0e, &[], &[6; 32])),
        (true, vec![0]),
        (true, encoded_pair(0x0e, &[], &[8; 32])),
        (false, encoded_pair(0x16, &[9; 32], &[])),
        (true, vec![0]),
        (true, encoded_pair(0x03, &[], &[1, 0, 0, 0, 0, 0, 0, 0])),
        (false, encoded_pair(0x02, &[3; 33], &[1, 2, 3, 4])),
        (true, encoded_pair(0x04, &[], &[4; 0x1_0000])),
        (true, vec![0]),
        (false, vec![1, 2, 3]),
    ];
    let input: Vec<u8> = pieces.iter().flat_map(|(_, bytes)| bytes.clone()).collect();
    let kept: Vec<u8> =
        pieces.iter().filter(|(keep, _)| *keep).flat_map(|(_, bytes)| bytes.clone()).collect();
    assert_eq!(scrub(&input), Ok(kept));
}

#[test]
fn sensitive_fields_do_not_influence_output() {
    let psbt = |sensitive: &[u8]| {
        let kept = encoded_pair(0x01, &[], &[0xAA]);
        v2_psbt(1, 0, sensitive, &[sensitive, &kept[..], sensitive, &[0]].concat())
    };
    let expected = scrub(&psbt(&[])).unwrap();
    for sensitive in [
        encoded_pair(0xFC, &[1], &[2]),
        encoded_pair(0xFC, &[1], &[3]),
        encoded_pair(0xFC, &[], &[4; 300]),
        [encoded_pair(0x16, &[5], &[6]), encoded_pair(0xFC, &[7], &[])].concat(),
    ] {
        assert_eq!(scrub(&psbt(&sensitive)), Ok(expected.clone()));
    }
}
