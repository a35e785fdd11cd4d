//! What a PSBT consists of, how it stands in bytes, and what scrubbing leaves of it.

use vstd::prelude::*;

use crate::counts::counts;
use crate::error::Error;
use crate::fields::MapKind;
use crate::maps::{
    all_retained, any_pair, keeps, kept_map_bytes, kept_maps_bytes, map_bytes, map_fits,
    map_lens_uncut, maps_bytes, maps_fit, maps_lens_uncut, read_map, read_maps, retained,
};
use crate::pair::PairView;

verus! {

/// PSBT magic bytes: "psbt\xff"
pub const MAGIC: [u8; 5] = [0x70, 0x73, 0x62, 0x74, 0xff];

/// The magic bytes, as a sequence.
pub open spec fn magic() -> Seq<u8> {
    seq![0x70u8, 0x73u8, 0x62u8, 0x74u8, 0xffu8]
}

/// What a PSBT consists of.
#[verifier::ext_equal]
pub struct PsbtView {
    pub global: Seq<PairView>,
    pub inputs: Seq<Seq<PairView>>,
    pub outputs: Seq<Seq<PairView>>,
}

/// A PSBT in bytes: the magic bytes, the global map, a map per input and a map per output.
pub open spec fn psbt_bytes(psbt: PsbtView) -> Seq<u8> {
    magic() + map_bytes(psbt.global) + maps_bytes(psbt.inputs) + maps_bytes(psbt.outputs)
}

/// A PSBT without its sensitive fields.
pub open spec fn stripped(psbt: PsbtView) -> PsbtView {
    PsbtView {
        global: retained(MapKind::Global, psbt.global),
        inputs: all_retained(MapKind::Input, psbt.inputs),
        outputs: all_retained(MapKind::Output, psbt.outputs),
    }
}

/// Reads the PSBT whose global map has been read: the maps of its inputs and outputs, of which
/// there are `n_inputs` and `n_outputs`, from the front of `s`. Gives the PSBT and the bytes
/// behind it.
pub open spec fn read_body(global: Seq<PairView>, s: Seq<u8>, n_inputs: u64, n_outputs: u64) -> Result<
    (PsbtView, Seq<u8>),
    Error,
> {
    match read_maps(s, n_inputs as nat) {
        None => Err(Error::UnexpectedEof),
        Some((inputs, rest)) => match read_maps(rest, n_outputs as nat) {
            None => Err(Error::UnexpectedEof),
            Some((outputs, behind)) => Ok((PsbtView { global, inputs, outputs }, behind)),
        },
    }
}

/// Reads a PSBT from the front of `s`: the PSBT and the bytes behind it.
pub open spec fn read_psbt(s: Seq<u8>) -> Result<(PsbtView, Seq<u8>), Error> {
    if !magic().is_prefix_of(s) {
        Err(Error::InvalidMagic)
    } else {
        match read_map(s.skip(5)) {
            None => Err(Error::UnexpectedEof),
            Some((global, rest)) => match counts(global) {
                Err(error) => Err(error),
                Ok((n_inputs, n_outputs)) => read_body(global, rest, n_inputs, n_outputs),
            },
        }
    }
}

/// What scrubbing the bytes `s` gives: the PSBT that they start with, without its sensitive
/// fields.
pub open spec fn scrubbed(s: Seq<u8>) -> Result<Seq<u8>, Error> {
    match read_psbt(s) {
        Err(error) => Err(error),
        Ok((psbt, _)) => Ok(psbt_bytes(stripped(psbt))),
    }
}

/// Whether `psbt` can be read back once it has been written: each of its pairs is small enough,
/// and its global map states how many inputs and outputs there are.
pub open spec fn psbt_valid(psbt: PsbtView) -> bool {
    &&& map_fits(psbt.global)
    &&& maps_fit(psbt.inputs)
    &&& maps_fit(psbt.outputs)
    &&& counts(psbt.global) matches Ok((n_inputs, n_outputs)) && n_inputs == psbt.inputs.len()
        && n_outputs == psbt.outputs.len()
}

/// Whether each length that the PSBT at the front of `s` declares for a value fits in a `usize`,
/// as far as `of_global`, `of_inputs` and `of_outputs` say yes of the pair.
pub open spec fn lens_uncut(
    of_global: spec_fn(PairView) -> bool,
    of_inputs: spec_fn(PairView) -> bool,
    of_outputs: spec_fn(PairView) -> bool,
    s: Seq<u8>,
) -> bool {
    &&& map_lens_uncut(of_global, s.skip(5))
    &&& read_map(s.skip(5)) matches Some((global, rest)) ==> (counts(global) matches Ok(
        (n_inputs, n_outputs),
    ) ==> {
        &&& maps_lens_uncut(of_inputs, rest, n_inputs as nat)
        &&& read_maps(rest, n_inputs as nat) matches Some((_, rest)) ==> maps_lens_uncut(
            of_outputs,
            rest,
            n_outputs as nat,
        )
    })
}

/// Whether each length that the PSBT at the front of `s` declares for a value fits in a `usize`.
pub open spec fn all_lens_uncut(s: Seq<u8>) -> bool {
    lens_uncut(any_pair(), any_pair(), any_pair(), s)
}

/// Whether each length that the PSBT at the front of `s` declares for the value of a
/// non-sensitive pair fits in a `usize`.
pub open spec fn kept_lens_uncut(s: Seq<u8>) -> bool {
    lens_uncut(keeps(MapKind::Global), keeps(MapKind::Input), keeps(MapKind::Output), s)
}

/// The bytes of the PSBT at the front of `s`, without those of its sensitive pairs and without
/// those behind it.
pub open spec fn kept_bytes(s: Seq<u8>) -> Seq<u8> {
    match read_map(s.skip(5)) {
        None => Seq::empty(),
        Some((global, rest)) => match counts(global) {
            Err(_) => Seq::empty(),
            Ok((n_inputs, n_outputs)) => match read_maps(rest, n_inputs as nat) {
                None => Seq::empty(),
                Some((_, behind)) => s.take(5) + kept_map_bytes(MapKind::Global, s.skip(5))
                    + kept_maps_bytes(MapKind::Input, rest, n_inputs as nat) + kept_maps_bytes(
                    MapKind::Output,
                    behind,
                    n_outputs as nat,
                ),
            },
        },
    }
}

} // verus!
