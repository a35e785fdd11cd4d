//! The key types whose fields a scrubbed PSBT keeps, per kind of map.

use vstd::prelude::*;

verus! {

/// Global map key types retained when scrubbing (non-sensitive).
#[derive(Clone, Copy, Debug, PartialEq, Eq)]
pub enum GlobalInsensitive {
    UnsignedTx,
    TxVersion,
    FallbackLocktime,
    InputCount,
    OutputCount,
    TxModifiable,
    Version,
}

impl GlobalInsensitive {
    /// The key type's number in a PSBT.
    pub open spec fn spec_key_type(self) -> u8 {
        match self {
            GlobalInsensitive::UnsignedTx => 0x00,
            GlobalInsensitive::TxVersion => 0x02,
            GlobalInsensitive::FallbackLocktime => 0x03,
            GlobalInsensitive::InputCount => 0x04,
            GlobalInsensitive::OutputCount => 0x05,
            GlobalInsensitive::TxModifiable => 0x06,
            GlobalInsensitive::Version => 0xFB,
        }
    }

    /// Whether `v` is the number of one of these key types.
    pub open spec fn retains(v: u8) -> bool {
        v == 0x00 || 0x02 <= v <= 0x06 || v == 0xFB
    }

    /// Returns the key type's number in a PSBT.
    #[verifier::when_used_as_spec(spec_key_type)]
    pub fn key_type(self) -> (v: u8)
        ensures
            v == self.spec_key_type(),
    {
        match self {
            GlobalInsensitive::UnsignedTx => 0x00,
            GlobalInsensitive::TxVersion => 0x02,
            GlobalInsensitive::FallbackLocktime => 0x03,
            GlobalInsensitive::InputCount => 0x04,
            GlobalInsensitive::OutputCount => 0x05,
            GlobalInsensitive::TxModifiable => 0x06,
            GlobalInsensitive::Version => 0xFB,
        }
    }

    /// Tells whether fields of the key type `v` are retained.
    pub fn contains(v: u8) -> (retained: bool)
        ensures
            retained == Self::retains(v),
            retained <==> (v == 0x00 || v == 0x02 || v == 0x03 || v == 0x04 || v == 0x05
                || v == 0x06
                || v == 0xFB),
            retained <==> exists|kind: GlobalInsensitive| #[trigger] kind.key_type() == v,
    {
        v == GlobalInsensitive::UnsignedTx.key_type()
            || v == GlobalInsensitive::TxVersion.key_type()
            || v == GlobalInsensitive::FallbackLocktime.key_type()
            || v == GlobalInsensitive::InputCount.key_type()
            || v == GlobalInsensitive::OutputCount.key_type()
            || v == GlobalInsensitive::TxModifiable.key_type()
            || v == GlobalInsensitive::Version.key_type()
    }
}

/// Input map key types retained when scrubbing (non-sensitive).
#[derive(Clone, Copy, Debug, PartialEq, Eq)]
pub enum InputInsensitive {
    NonWitnessUtxo,
    WitnessUtxo,
    SighashType,
    RedeemScript,
    WitnessScript,
    FinalScriptsig,
    FinalScriptwitness,
    PreviousTxid,
    OutputIndex,
    Sequence,
    RequiredTimeLocktime,
    RequiredHeightLocktime,
    TapKeySig,
    TapScriptSig,
    TapLeafScript,
}

impl InputInsensitive {
    /// The key type's number in a PSBT.
    pub open spec fn spec_key_type(self) -> u8 {
        match self {
            InputInsensitive::NonWitnessUtxo => 0x00,
            InputInsensitive::WitnessUtxo => 0x01,
            InputInsensitive::SighashType => 0x03,
            InputInsensitive::RedeemScript => 0x04,
            InputInsensitive::WitnessScript => 0x05,
            InputInsensitive::FinalScriptsig => 0x07,
            InputInsensitive::FinalScriptwitness => 0x08,
            InputInsensitive::PreviousTxid => 0x0e,
            InputInsensitive::OutputIndex => 0x0f,
            InputInsensitive::Sequence => 0x10,
            InputInsensitive::RequiredTimeLocktime => 0x11,
            InputInsensitive::RequiredHeightLocktime => 0x12,
            InputInsensitive::TapKeySig => 0x13,
            InputInsensitive::TapScriptSig => 0x14,
            InputInsensitive::TapLeafScript => 0x15,
        }
    }

    /// Whether `v` is the number of one of these key types.
    pub open spec fn retains(v: u8) -> bool {
        v <= 0x01 || 0x03 <= v <= 0x05 || 0x07 <= v <= 0x08 || 0x0e <= v <= 0x15
    }

    /// Returns the key type's number in a PSBT.
    #[verifier::when_used_as_spec(spec_key_type)]
    pub fn key_type(self) -> (v: u8)
        ensures
            v == self.spec_key_type(),
    {
        match self {
            InputInsensitive::NonWitnessUtxo => 0x00,
            InputInsensitive::WitnessUtxo => 0x01,
            InputInsensitive::SighashType => 0x03,
            InputInsensitive::RedeemScript => 0x04,
            InputInsensitive::WitnessScript => 0x05,
            InputInsensitive::FinalScriptsig => 0x07,
            InputInsensitive::FinalScriptwitness => 0x08,
            InputInsensitive::PreviousTxid => 0x0e,
            InputInsensitive::OutputIndex => 0x0f,
            InputInsensitive::Sequence => 0x10,
            InputInsensitive::RequiredTimeLocktime => 0x11,
            InputInsensitive::RequiredHeightLocktime => 0x12,
            InputInsensitive::TapKeySig => 0x13,
            InputInsensitive::TapScriptSig => 0x14,
            InputInsensitive::TapLeafScript => 0x15,
        }
    }

    /// Tells whether fields of the key type `v` are retained.
    pub fn contains(v: u8) -> (retained: bool)
        ensures
            retained == Self::retains(v),
            retained <==> (v == 0x00 || v == 0x01 || v == 0x03 || v == 0x04 || v == 0x05
                || v == 0x07
                || v == 0x08 || v == 0x0e || v == 0x0f || v == 0x10 || v == 0x11 || v == 0x12
                || v == 0x13 || v == 0x14 || v == 0x15),
            retained <==> exists|kind: InputInsensitive| #[trigger] kind.key_type() == v,
    {
        v == InputInsensitive::NonWitnessUtxo.key_type()
            || v == InputInsensitive::WitnessUtxo.key_type()
            || v == InputInsensitive::SighashType.key_type()
            || v == InputInsensitive::RedeemScript.key_type()
            || v == InputInsensitive::WitnessScript.key_type()
            || v == InputInsensitive::FinalScriptsig.key_type()
            || v == InputInsensitive::FinalScriptwitness.key_type()
            || v == InputInsensitive::PreviousTxid.key_type()
            || v == InputInsensitive::OutputIndex.key_type()
            || v == InputInsensitive::Sequence.key_type()
            || v == InputInsensitive::RequiredTimeLocktime.key_type()
            || v == InputInsensitive::RequiredHeightLocktime.key_type()
            || v == InputInsensitive::TapKeySig.key_type()
            || v == InputInsensitive::TapScriptSig.key_type()
            || v == InputInsensitive::TapLeafScript.key_type()
    }
}

/// Output map key types retained when scrubbing (non-sensitive).
#[derive(Clone, Copy, Debug, PartialEq, Eq)]
pub enum OutputInsensitive {
    Amount,
    Script,
}

impl OutputInsensitive {
    /// The key type's number in a PSBT.
    pub open spec fn spec_key_type(self) -> u8 {
        match self {
            OutputInsensitive::Amount => 0x03,
            OutputInsensitive::Script => 0x04,
        }
    }

    /// Whether `v` is the number of one of these key types.
    pub open spec fn retains(v: u8) -> bool {
        0x03 <= v <= 0x04
    }

    /// Returns the key type's number in a PSBT.
    #[verifier::when_used_as_spec(spec_key_type)]
    pub fn key_type(self) -> (v: u8)
        ensures
            v == self.spec_key_type(),
    {
        match self {
            OutputInsensitive::Amount => 0x03,
            OutputInsensitive::Script => 0x04,
        }
    }

    /// Tells whether fields of the key type `v` are retained.
    pub fn contains(v: u8) -> (retained: bool)
        ensures
            retained == Self::retains(v),
            retained <==> (v == 0x03 || v == 0x04),
            retained <==> exists|kind: OutputInsensitive| #[trigger] kind.key_type() == v,
    {
        v == OutputInsensitive::Amount.key_type() || v == OutputInsensitive::Script.key_type()
    }
}

/// The three kinds of map that a PSBT consists of.
#[derive(Clone, Copy, Debug, PartialEq, Eq)]
pub enum MapKind {
    /// The map about the transaction as a whole.
    Global,
    /// A map about one input.
    Input,
    /// A map about one output.
    Output,
}

impl MapKind {
    /// Whether maps of this kind keep fields of the key type `v`.
    pub open spec fn spec_retains(self, v: u8) -> bool {
        match self {
            MapKind::Global => GlobalInsensitive::retains(v),
            MapKind::Input => InputInsensitive::retains(v),
            MapKind::Output => OutputInsensitive::retains(v),
        }
    }

    /// Tells whether maps of this kind keep fields of the key type `v`.
    #[verifier::when_used_as_spec(spec_retains)]
    pub fn retains(self, v: u8) -> (retained: bool)
        ensures
            retained == self.spec_retains(v),
            self is Global ==> (retained <==> (v == 0x00 || v == 0x02 || v == 0x03 || v == 0x04
                || v == 0x05 || v == 0x06
                || v == 0xFB)),
            self is Input ==> (retained <==> (v == 0x00 || v == 0x01 || v == 0x03 || v == 0x04
                || v == 0x05 || v == 0x07
                || v == 0x08 || v == 0x0e || v == 0x0f || v == 0x10 || v == 0x11 || v == 0x12
                || v == 0x13 || v == 0x14 || v == 0x15)),
            self is Output ==> (retained <==> (v == 0x03 || v == 0x04)),
    {
        match self {
            MapKind::Global => GlobalInsensitive::contains(v),
            MapKind::Input => InputInsensitive::contains(v),
            MapKind::Output => OutputInsensitive::contains(v),
        }
    }
}

/// Law: which key types each kind of map keeps, out of all 256.
pub proof fn law_retained_key_types(v: u8)
    ensures
        MapKind::Global.retains(v) <==> (v == 0x00 || v == 0x02 || v == 0x03 || v == 0x04
            || v == 0x05 || v == 0x06
            || v == 0xFB),
        MapKind::Input.retains(v) <==> (v == 0x00 || v == 0x01 || v == 0x03 || v == 0x04
            || v == 0x05 || v == 0x07
            || v == 0x08 || v == 0x0e || v == 0x0f || v == 0x10 || v == 0x11 || v == 0x12
            || v == 0x13 || v == 0x14 || v == 0x15),
        MapKind::Output.retains(v) <==> (v == 0x03 || v == 0x04),
{
}

/// Law: the number of each key type that is kept.
pub proof fn law_key_types()
    ensures
        GlobalInsensitive::UnsignedTx.key_type() == 0x00,
        GlobalInsensitive::TxVersion.key_type() == 0x02,
        GlobalInsensitive::FallbackLocktime.key_type() == 0x03,
        GlobalInsensitive::InputCount.key_type() == 0x04,
        GlobalInsensitive::OutputCount.key_type() == 0x05,
        GlobalInsensitive::TxModifiable.key_type() == 0x06,
        GlobalInsensitive::Version.key_type() == 0xFB,
        InputInsensitive::NonWitnessUtxo.key_type() == 0x00,
        InputInsensitive::WitnessUtxo.key_type() == 0x01,
        InputInsensitive::SighashType.key_type() == 0x03,
        InputInsensitive::RedeemScript.key_type() == 0x04,
        InputInsensitive::WitnessScript.key_type() == 0x05,
        InputInsensitive::FinalScriptsig.key_type() == 0x07,
        InputInsensitive::FinalScriptwitness.key_type() == 0x08,
        InputInsensitive::PreviousTxid.key_type() == 0x0e,
        InputInsensitive::OutputIndex.key_type() == 0x0f,
        InputInsensitive::Sequence.key_type() == 0x10,
        InputInsensitive::RequiredTimeLocktime.key_type() == 0x11,
        InputInsensitive::RequiredHeightLocktime.key_type() == 0x12,
        InputInsensitive::TapKeySig.key_type() == 0x13,
        InputInsensitive::TapScriptSig.key_type() == 0x14,
        InputInsensitive::TapLeafScript.key_type() == 0x15,
        OutputInsensitive::Amount.key_type() == 0x03,
        OutputInsensitive::Script.key_type() == 0x04,
{
}

} // verus!
