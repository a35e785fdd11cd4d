use scrubber::fields::MapKind;
use scrubber::{Error, GlobalInsensitive, InputInsensitive, OutputInsensitive};

#[test]
fn retained_global_key_types() {
    let retained: Vec<u8> = (0..=255u8).filter(|v| GlobalInsensitive::contains(*v)).collect();
    assert_eq!(retained, vec![0x00, 0x02, 0x03, 0x04, 0x05, 0x06, 0xFB]);
}

#[test]
fn retained_input_key_types() {
    let retained: Vec<u8> = (0..=255u8).filter(|v| InputInsensitive::contains(*v)).collect();
    assert_eq!(
        retained,
        vec![
            0x00, 0x01, 0x03, 0x04, 0x05, 0x07, 0x08, 0x0e, 0x0f, 0x10, 0x11, 0x12, 0x13, 0x14,
            0x15
        ]
    );
}

#[test]
fn retained_output_key_types() {
    let retained: Vec<u8> = (0..=255u8).filter(|v| OutputInsensitive::contains(*v)).collect();
    assert_eq!(retained, vec![0x03, 0x04]);
}

#[test]
fn key_types_have_their_numbers() {
    assert_eq!(GlobalInsensitive::UnsignedTx.key_type(), 0x00);
    assert_eq!(GlobalInsensitive::TxVersion.key_type(), 0x02);
    assert_eq!(GlobalInsensitive::FallbackLocktime.key_type(), 0x03);
    assert_eq!(GlobalInsensitive::InputCount.key_type(), 0x04);
    assert_eq!(GlobalInsensitive::OutputCount.key_type(), 0x05);
    assert_eq!(GlobalInsensitive::TxModifiable.key_type(), 0x06);
    assert_eq!(GlobalInsensitive::Version.key_type(), 0xFB);
    assert_eq!(InputInsensitive::NonWitnessUtxo.key_type(), 0x00);
    assert_eq!(InputInsensitive::WitnessUtxo.key_type(), 0x01);
    assert_eq!(InputInsensitive::SighashType.key_type(), 0x03);
    assert_eq!(InputInsensitive::RedeemScript.key_type(), 0x04);
    assert_eq!(InputInsensitive::WitnessScript.key_type(), 0x05);
    assert_eq!(InputInsensitive::FinalScriptsig.key_type(), 0x07);
    assert_eq!(InputInsensitive::FinalScriptwitness.key_type(), 0x08);
    assert_eq!(InputInsensitive::PreviousTxid.key_type(), 0x0e);
    assert_eq!(InputInsensitive::OutputIndex.key_type(), 0x0f);
    assert_eq!(InputInsensitive::Sequence.key_type(), 0x10);
    assert_eq!(InputInsensitive::RequiredTimeLocktime.key_type(), 0x11);
    assert_eq!(InputInsensitive::RequiredHeightLocktime.key_type(), 0x12);
    assert_eq!(InputInsensitive::TapKeySig.key_type(), 0x13);
    assert_eq!(InputInsensitive::TapScriptSig.key_type(), 0x14);
    assert_eq!(InputInsensitive::TapLeafScript.key_type(), 0x15);
    assert_eq!(OutputInsensitive::Amount.key_type(), 0x03);
    assert_eq!(OutputInsensitive::Script.key_type(), 0x04);
}

#[test]
fn map_kinds_keep_what_their_key_types_say() {
    for v in 0..=255u8 {
        assert_eq!(MapKind::Global.retains(v), GlobalInsensitive::contains(v));
        assert_eq!(MapKind::Input.retains(v), InputInsensitive::contains(v));
        assert_eq!(MapKind::Output.retains(v), OutputInsensitive::contains(v));
    }
}

#[test]
fn error_messages() {
    assert_eq!(Error::InvalidMagic.to_string(), "invalid PSBT magic bytes");
    assert_eq!(Error::UnexpectedEof.to_string(), "unexpected end of input");
    assert_eq!(Error::InvalidGlobal.to_string(), "invalid or missing global map fields");
}
