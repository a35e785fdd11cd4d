//! How maps and PSBTs stand in bytes, and what scrubbing makes of these bytes.

use vstd::prelude::*;

use crate::consensus::transaction_counts;
use crate::counts::{counts, field, law_counts_of_version_0, law_counts_of_version_2};
use crate::error::Error;
use crate::fields::MapKind;
use crate::laws::{
    law_lens_uncut, law_output_is_stripped_psbt, law_psbt_read_then_written,
    law_read_psbt_is_valid, law_scrub_of_written,
};
use crate::maps::{
    all_retained, any_pair, keeps, law_map_lens_uncut, law_map_read_then_written,
    law_map_written_then_read, law_maps_lens_uncut, law_maps_read_then_written,
    law_maps_written_then_read, lemma_maps_bytes_add, lemma_maps_bytes_one, lemma_pairs_bytes_add,
    lemma_pairs_bytes_one, lemma_read_map, lemma_read_maps, lemma_retained_add,
    lemma_retained_one, map_bytes, map_fits, maps_bytes, maps_fit, pairs_bytes, read_map, read_maps,
    retained,
};
use crate::pair::{
    law_map_end_byte, law_pair_layout, law_pair_layout_read, pair_bytes, pair_fits, read_pair,
    PairView,
};
use crate::psbt::{
    magic, psbt_bytes, read_body, read_psbt, scrubbed, stripped, PsbtView, MAGIC,
};
use crate::wire::compact_size;

verus! {

/// Law: pairs are written one behind the other, each as the length of its key and type, the
/// type, the key, the length of the value and the value. A zero byte ends a map.
pub proof fn law_map_written_layout(map: Seq<PairView>)
    ensures
        pairs_bytes(map) == map.map_values(
            |p: PairView|
                compact_size((p.key.len() + 1) as u64) + seq![p.type_value] + p.key + compact_size(
                    p.value.len() as u64,
                ) + p.value,
        ).flatten(),
        map_bytes(map) == map.map_values(
            |p: PairView|
                compact_size((p.key.len() + 1) as u64) + seq![p.type_value] + p.key + compact_size(
                    p.value.len() as u64,
                ) + p.value,
        ).flatten() + seq![0u8],
    decreases map.len(),
{
    let f = |p: PairView|
        compact_size((p.key.len() + 1) as u64) + seq![p.type_value] + p.key + compact_size(
            p.value.len() as u64,
        ) + p.value;
    if map.len() > 0 {
        law_map_written_layout(map.skip(1));
        assert(map.map_values(f).drop_first() =~= map.skip(1).map_values(f));
        assert(map.map_values(f).first() == pair_bytes(map[0]));
    }
}

/// Law: maps are written one behind the other.
pub proof fn law_maps_written_layout(maps: Seq<Seq<PairView>>)
    ensures
        maps_bytes(maps) == maps.map_values(|map: Seq<PairView>| map_bytes(map)).flatten(),
    decreases maps.len(),
{
    let f = |map: Seq<PairView>| map_bytes(map);
    if maps.len() > 0 {
        law_maps_written_layout(maps.skip(1));
        assert(maps.map_values(f).drop_first() =~= maps.skip(1).map_values(f));
    }
}

/// Law: what is within the limits for reading: keys of at most 4,000,000 bytes behind the type, and
/// values that take up at most 4,000,000 bytes with their length, and nothing else.
pub proof fn law_fitting(pair: PairView, map: Seq<PairView>, maps: Seq<Seq<PairView>>)
    ensures
        pair_fits(pair) <==> pair.key.len() <= 4_000_000 && compact_size(
            pair.value.len() as u64,
        ).len() + pair.value.len() <= 4_000_000,
        map_fits(map) <==> forall|i: int|
            0 <= i < map.len() ==> (#[trigger] map[i]).key.len() <= 4_000_000 && compact_size(
                map[i].value.len() as u64,
            ).len() + map[i].value.len() <= 4_000_000,
        maps_fit(maps) <==> forall|k: int, i: int|
            0 <= k < maps.len() && 0 <= i < maps[k].len() ==> (#[trigger] maps[k][i]).key.len()
                <= 4_000_000 && compact_size(maps[k][i].value.len() as u64).len()
                + maps[k][i].value.len() <= 4_000_000,
{
    if map_fits(map) {
        assert forall|i: int| 0 <= i < map.len() implies (#[trigger] map[i]).key.len() <= 4_000_000
            && compact_size(map[i].value.len() as u64).len() + map[i].value.len() <= 4_000_000 by {
            assert(pair_fits(map[i]));
        }
    }
    if maps_fit(maps) {
        assert forall|k: int, i: int|
            0 <= k < maps.len() && 0 <= i < maps[k].len() implies (
        #[trigger] maps[k][i]).key.len() <= 4_000_000 && compact_size(
            maps[k][i].value.len() as u64,
        ).len() + maps[k][i].value.len() <= 4_000_000 by {
            assert(map_fits(maps[k]));
            assert(pair_fits(maps[k][i]));
        }
    }
    if forall|k: int, i: int|
        0 <= k < maps.len() && 0 <= i < maps[k].len() ==> (#[trigger] maps[k][i]).key.len()
            <= 4_000_000 && compact_size(maps[k][i].value.len() as u64).len()
            + maps[k][i].value.len() <= 4_000_000 {
        assert forall|k: int| 0 <= k < maps.len() implies map_fits(#[trigger] maps[k]) by {
            assert forall|i: int| 0 <= i < maps[k].len() implies pair_fits(
                #[trigger] maps[k][i],
            ) by {}
        }
    }
}

/// Law: reading a map takes the pair that stands in front of the rest of it, as the bytes have
/// it, and a zero byte for its end.
pub proof fn law_read_map_pair(
    type_value: u8,
    key: Seq<u8>,
    len: u64,
    value: Seq<u8>,
    rest: Seq<u8>,
)
    requires
        key.len() <= 4_000_000,
        value.len() == (len as usize),
        compact_size(len).len() + value.len() <= 4_000_000,
    ensures
        read_map(
            compact_size((key.len() + 1) as u64) + seq![type_value] + key + compact_size(len)
                + value + rest,
        ) == (match read_map(rest) {
            None => None,
            Some((pairs, behind)) => Some(
                (seq![(PairView { type_value, key, value })] + pairs, behind),
            ),
        }),
        read_map(seq![0u8] + rest) == Some((Seq::<PairView>::empty(), rest)),
{
    law_pair_layout_read(type_value, key, len, value, rest);
    law_map_end_byte(seq![0u8] + rest);
    assert((seq![0u8] + rest).skip(1) =~= rest);
}

/// Law: where a map is read, the bytes start with a zero byte if it has no pair, and else with
/// its first pair, behind which the rest of the map is read.
pub proof fn law_read_map_layout(s: Seq<u8>)
    ensures
        read_map(s) matches Some((map, rest)) ==> (map.len() == 0 ==> s == seq![0u8] + rest),
        read_map(s) matches Some((map, rest)) ==> (map.len() > 0 ==> map[0].key.len() <= 4_000_000
            && exists|len: u64, behind: Seq<u8>|
            map[0].value.len() == (len as usize) && #[trigger] compact_size(len).len()
                + map[0].value.len() <= 4_000_000 && #[trigger] read_map(behind) == Some(
                (map.skip(1), rest),
            ) && s == compact_size((map[0].key.len() + 1) as u64) + seq![map[0].type_value]
                + map[0].key + compact_size(len) + map[0].value + behind),
{
    law_pair_layout(s);
    law_map_end_byte(s);
    match read_pair(s) {
        (Ok(Some(pair)), behind) => {
            if let Some((pairs, rest)) = read_map(behind) {
                assert((seq![pair] + pairs).skip(1) =~= pairs);
            }
        },
        (Ok(None), rest) => {
            assert(s =~= seq![0u8] + rest);
        },
        (Err(_), _) => {},
    }
}

/// Law: reading so many maps and so many more is reading their sum; one map is read as a map.
pub proof fn law_read_maps_add(s: Seq<u8>, n: nat, more: nat)
    ensures
        read_maps(s, n + more) == (match read_maps(s, n) {
            None => None,
            Some((maps, mid)) => match read_maps(mid, more) {
                None => None,
                Some((others, rest)) => Some((maps + others, rest)),
            },
        }),
        read_maps(s, 0) == Some((Seq::<Seq<PairView>>::empty(), s)),
        read_maps(s, 1) == (match read_map(s) {
            None => None,
            Some((map, rest)) => Some((seq![map], rest)),
        }),
    decreases n,
{
    reveal_with_fuel(read_maps, 2);
    if let Some((map, rest)) = read_map(s) {
        assert(seq![map] + Seq::<Seq<PairView>>::empty() =~= seq![map]);
    }
    if n == 0 {
        if let Some((others, rest)) = read_maps(s, more) {
            assert(Seq::empty() + others =~= others);
        }
    } else if let Some((map, behind)) = read_map(s) {
        law_read_maps_add(behind, (n - 1) as nat, more);
        assert((n - 1) as nat + more == (n + more - 1) as nat);
        if let Some((maps, mid)) = read_maps(behind, (n - 1) as nat) {
            if let Some((others, rest)) = read_maps(mid, more) {
                assert(seq![map] + (maps + others) =~= (seq![map] + maps) + others);
            }
        }
    }
}

/// Law: where a `usize` has 64 bits, a map is read exactly where it stands in front, each of its
/// pairs within the limits.
pub proof fn law_read_map_exactly(s: Seq<u8>, map: Seq<PairView>, rest: Seq<u8>)
    requires
        usize::BITS == 64,
    ensures
        read_map(s) == Some((map, rest)) <==> s == map_bytes(map) + rest && forall|i: int|
            0 <= i < map.len() ==> (#[trigger] map[i]).key.len() <= 4_000_000 && compact_size(
                map[i].value.len() as u64,
            ).len() + map[i].value.len() <= 4_000_000,
{
    law_fitting(arbitrary(), map, Seq::empty());
    law_map_lens_uncut(any_pair(), s);
    law_map_read_then_written(s);
    lemma_read_map(s);
    if map_fits(map) {
        law_map_written_then_read(map, rest);
    }
}

/// Law: where a `usize` has 64 bits, maps are read exactly where they stand in front, as many as
/// asked for, each of their pairs within the limits.
pub proof fn law_read_maps_exactly(s: Seq<u8>, n: nat, maps: Seq<Seq<PairView>>, rest: Seq<u8>)
    requires
        usize::BITS == 64,
    ensures
        read_maps(s, n) == Some((maps, rest)) <==> maps.len() == n && s == maps_bytes(maps) + rest
            && forall|k: int, i: int|
            0 <= k < maps.len() && 0 <= i < maps[k].len() ==> (#[trigger] maps[k][i]).key.len()
                <= 4_000_000 && compact_size(maps[k][i].value.len() as u64).len()
                + maps[k][i].value.len() <= 4_000_000,
{
    law_fitting(arbitrary(), Seq::empty(), maps);
    law_maps_lens_uncut(any_pair(), s, n);
    law_maps_read_then_written(s, n);
    lemma_read_maps(s, n);
    if maps_fit(maps) {
        law_maps_written_then_read(maps, rest);
    }
}

/// Law: what is left of a map is its pairs with the key types that maps of its kind keep, in their
/// order; maps are dealt with each on its own.
pub proof fn law_retained_exactly(kind: MapKind, map: Seq<PairView>, maps: Seq<Seq<PairView>>)
    ensures
        kind is Global ==> retained(kind, map) == map.filter(
            |p: PairView|
                p.type_value == 0x00 || p.type_value == 0x02 || p.type_value == 0x03
                    || p.type_value == 0x04 || p.type_value == 0x05 || p.type_value == 0x06
                    || p.type_value == 0xFB,
        ),
        kind is Input ==> retained(kind, map) == map.filter(
            |p: PairView|
                p.type_value == 0x00 || p.type_value == 0x01 || p.type_value == 0x03
                    || p.type_value == 0x04 || p.type_value == 0x05 || p.type_value == 0x07
                    || p.type_value == 0x08 || p.type_value == 0x0e || p.type_value == 0x0f
                    || p.type_value == 0x10 || p.type_value == 0x11 || p.type_value == 0x12
                    || p.type_value == 0x13 || p.type_value == 0x14 || p.type_value == 0x15,
        ),
        kind is Output ==> retained(kind, map) == map.filter(
            |p: PairView| p.type_value == 0x03 || p.type_value == 0x04,
        ),
        all_retained(kind, maps) == maps.map_values(|m: Seq<PairView>| retained(kind, m)),
{
    let global = |p: PairView|
        p.type_value == 0x00 || p.type_value == 0x02 || p.type_value == 0x03 || p.type_value
            == 0x04 || p.type_value == 0x05 || p.type_value == 0x06 || p.type_value == 0xFB;
    let input = |p: PairView|
        p.type_value == 0x00 || p.type_value == 0x01 || p.type_value == 0x03 || p.type_value
            == 0x04 || p.type_value == 0x05 || p.type_value == 0x07 || p.type_value == 0x08
            || p.type_value == 0x0e || p.type_value == 0x0f || p.type_value == 0x10 || p.type_value
            == 0x11 || p.type_value == 0x12 || p.type_value == 0x13 || p.type_value == 0x14
            || p.type_value == 0x15;
    let output = |p: PairView| p.type_value == 0x03 || p.type_value == 0x04;
    assert(keeps(MapKind::Global) =~= global);
    assert(keeps(MapKind::Input) =~= input);
    assert(keeps(MapKind::Output) =~= output);
}

/// Law: a PSBT is written as its five magic bytes, the global map, the maps of the inputs and
/// those of the outputs. Without its sensitive fields it has as many maps as with them.
pub proof fn law_psbt_written_layout(psbt: PsbtView)
    ensures
        psbt_bytes(psbt) == seq![0x70u8, 0x73u8, 0x62u8, 0x74u8, 0xffu8] + map_bytes(psbt.global)
            + maps_bytes(psbt.inputs) + maps_bytes(psbt.outputs),
        MAGIC@ == seq![0x70u8, 0x73u8, 0x62u8, 0x74u8, 0xffu8],
        stripped(psbt).global == retained(MapKind::Global, psbt.global),
        stripped(psbt).inputs == psbt.inputs.map_values(
            |map: Seq<PairView>| retained(MapKind::Input, map),
        ),
        stripped(psbt).outputs == psbt.outputs.map_values(
            |map: Seq<PairView>| retained(MapKind::Output, map),
        ),
{
    assert(MAGIC@ =~= magic());
}

/// The magic bytes are a prefix exactly where these five bytes stand in front.
proof fn lemma_magic_prefix(s: Seq<u8>)
    ensures
        magic().is_prefix_of(s) <==> s.len() >= 5 && s[0] == 0x70 && s[1] == 0x73
            && s[2] == 0x62 && s[3] == 0x74 && s[4] == 0xff,
{
    if s.len() >= 5 && s[0] == 0x70 && s[1] == 0x73 && s[2] == 0x62 && s[3] == 0x74
        && s[4] == 0xff {
        assert(s.take(5) =~= magic());
    }
    if magic().is_prefix_of(s) {
        let front = s.take(5);
        assert(front[0] == 0x70 && front[1] == 0x73 && front[2] == 0x62 && front[3] == 0x74
            && front[4] == 0xff);
    }
}

/// Law: what scrubbing gives, for any bytes. Without the magic bytes they are refused as such; a
/// global map that does not say how many inputs and outputs there are is refused as such; maps
/// that are malformed or missing, of all that the two numbers ask for, are refused as an early
/// end. Else the output is the magic bytes and what is left of each map, the global one first,
/// then as many as there are inputs, then as many as there are outputs.
pub proof fn law_scrub_outcome(s: Seq<u8>)
    ensures
        scrubbed(s) == Err::<Seq<u8>, _>(Error::InvalidMagic) <==> !(s.len() >= 5
            && s[0] == 0x70 && s[1] == 0x73 && s[2] == 0x62 && s[3] == 0x74 && s[4] == 0xff),
        s.len() >= 5 && s[0] == 0x70 && s[1] == 0x73 && s[2] == 0x62 && s[3] == 0x74 && s[4] == 0xff
            ==> (read_map(s.skip(5)) is None ==> scrubbed(s) == Err::<Seq<u8>, _>(
            Error::UnexpectedEof,
        )),
        s.len() >= 5 && s[0] == 0x70 && s[1] == 0x73 && s[2] == 0x62 && s[3] == 0x74 && s[4] == 0xff
            ==> (read_map(s.skip(5)) matches Some((global, rest)) ==> {
            &&& counts(global) is Err ==> scrubbed(s) == Err::<Seq<u8>, _>(Error::InvalidGlobal)
            &&& counts(global) matches Ok((n_inputs, n_outputs)) ==> {
                &&& read_maps(rest, (n_inputs + n_outputs) as nat) is None ==> scrubbed(s) == Err::<
                    Seq<u8>,
                    _,
                >(Error::UnexpectedEof)
                &&& read_maps(rest, (n_inputs + n_outputs) as nat) matches Some((maps, _))
                    ==> scrubbed(s) == Ok::<_, Error>(
                    seq![0x70u8, 0x73u8, 0x62u8, 0x74u8, 0xffu8] + map_bytes(
                        retained(MapKind::Global, global),
                    ) + maps_bytes(all_retained(MapKind::Input, maps.take(n_inputs as int)))
                        + maps_bytes(all_retained(MapKind::Output, maps.skip(n_inputs as int))),
                )
            }
        }),
{
    lemma_magic_prefix(s);
    if magic().is_prefix_of(s) {
        if let Some((global, rest)) = read_map(s.skip(5)) {
            lemma_counts_error(global);
            if let Ok((n_inputs, n_outputs)) = counts(global) {
                law_read_maps_add(rest, n_inputs as nat, n_outputs as nat);
                assert(n_inputs as nat + n_outputs as nat == (n_inputs + n_outputs) as nat);
                lemma_read_maps(rest, n_inputs as nat);
                if let Some((inputs, mid)) = read_maps(rest, n_inputs as nat) {
                    if let Some((outputs, _)) = read_maps(mid, n_outputs as nat) {
                        assert((inputs + outputs).take(n_inputs as int) =~= inputs);
                        assert((inputs + outputs).skip(n_inputs as int) =~= outputs);
                    }
                }
            }
        }
    }
}

proof fn lemma_counts_error(global: Seq<PairView>)
    ensures
        counts(global) matches Err(error) ==> error == Error::InvalidGlobal,
{
}

/// Law: every PSBT whose pairs are within the limits, and whose global map is for as many inputs
/// and outputs as there are maps, is scrubbed to the magic bytes and its maps, each with just the
/// pairs whose key types are listed for maps of its kind, in their order. What follows is dropped.
pub proof fn law_scrub_keeps_listed_fields(
    global: Seq<PairView>,
    inputs: Seq<Seq<PairView>>,
    outputs: Seq<Seq<PairView>>,
    rest: Seq<u8>,
)
    requires
        forall|i: int|
            0 <= i < global.len() ==> (#[trigger] global[i]).key.len() <= 4_000_000 && compact_size(
                global[i].value.len() as u64,
            ).len() + global[i].value.len() <= 4_000_000,
        forall|k: int, i: int|
            0 <= k < inputs.len() && 0 <= i < inputs[k].len()
                ==> (#[trigger] inputs[k][i]).key.len()
                <= 4_000_000 && compact_size(inputs[k][i].value.len() as u64).len()
                + inputs[k][i].value.len() <= 4_000_000,
        forall|k: int, i: int|
            0 <= k < outputs.len() && 0 <= i < outputs[k].len()
                ==> (#[trigger] outputs[k][i]).key.len()
                <= 4_000_000 && compact_size(outputs[k][i].value.len() as u64).len()
                + outputs[k][i].value.len() <= 4_000_000,
        inputs.len() <= u64::MAX,
        outputs.len() <= u64::MAX,
        counts(global) matches Ok((n_inputs, n_outputs)) && n_inputs == inputs.len() && n_outputs
            == outputs.len(),
    ensures
        scrubbed(
            seq![0x70u8, 0x73u8, 0x62u8, 0x74u8, 0xffu8] + map_bytes(global) + maps_bytes(inputs)
                + maps_bytes(outputs) + rest,
        ) == Ok::<_, Error>(
            seq![0x70u8, 0x73u8, 0x62u8, 0x74u8, 0xffu8] + map_bytes(
                global.filter(
                    |p: PairView|
                        p.type_value == 0x00 || p.type_value == 0x02 || p.type_value == 0x03
                            || p.type_value == 0x04 || p.type_value == 0x05
                            || p.type_value == 0x06 || p.type_value == 0xFB,
                ),
            ) + maps_bytes(
                inputs.map_values(
                    |map: Seq<PairView>|
                        map.filter(
                            |p: PairView|
                                p.type_value == 0x00 || p.type_value == 0x01
                                    || p.type_value == 0x03 || p.type_value == 0x04
                                    || p.type_value == 0x05 || p.type_value == 0x07
                                    || p.type_value == 0x08 || p.type_value == 0x0e
                                    || p.type_value == 0x0f || p.type_value == 0x10
                                    || p.type_value == 0x11 || p.type_value == 0x12
                                    || p.type_value == 0x13 || p.type_value == 0x14
                                    || p.type_value == 0x15,
                        ),
                ),
            ) + maps_bytes(
                outputs.map_values(
                    |map: Seq<PairView>|
                        map.filter(
                            |p: PairView|
                                p.type_value == 0x03 || p.type_value == 0x04,
                        ),
                ),
            ),
        ),
{
    let psbt = PsbtView { global, inputs, outputs };
    law_fitting(arbitrary(), global, inputs);
    law_fitting(arbitrary(), global, outputs);
    law_scrub_of_written(psbt, rest);
    law_psbt_written_layout(psbt);
    law_retained_exactly(MapKind::Global, global, inputs);
    let input = |p: PairView|
        p.type_value == 0x00 || p.type_value == 0x01 || p.type_value == 0x03
            || p.type_value == 0x04 || p.type_value == 0x05 || p.type_value == 0x07
            || p.type_value == 0x08 || p.type_value == 0x0e || p.type_value == 0x0f
            || p.type_value == 0x10 || p.type_value == 0x11 || p.type_value == 0x12
            || p.type_value == 0x13 || p.type_value == 0x14 || p.type_value == 0x15;
    let output = |p: PairView|
        p.type_value == 0x03 || p.type_value == 0x04;
    assert(inputs.map_values(|map: Seq<PairView>| map.filter(input)) =~= all_retained(
        MapKind::Input,
        inputs,
    )) by {
        assert forall|k: int| 0 <= k < inputs.len() implies inputs[k].filter(input) == retained(
            MapKind::Input,
            #[trigger] inputs[k],
        ) by {
            law_retained_exactly(MapKind::Input, inputs[k], inputs);
        }
    }
    assert(outputs.map_values(|map: Seq<PairView>| map.filter(output)) =~= all_retained(
        MapKind::Output,
        outputs,
    )) by {
        assert forall|k: int| 0 <= k < outputs.len() implies outputs[k].filter(output) == retained(
            MapKind::Output,
            #[trigger] outputs[k],
        ) by {
            law_retained_exactly(MapKind::Output, outputs[k], outputs);
        }
    }
}

/// Law: a version 2 PSBT, one whose version field 0xFB starts with the byte 2, has as many inputs
/// and outputs as its fields 0x04 and 0x05 state as compact sizes, and each of these maps is kept,
/// with just the listed key types.
pub proof fn law_scrub_version_2(
    global: Seq<PairView>,
    inputs: Seq<Seq<PairView>>,
    outputs: Seq<Seq<PairView>>,
    rest: Seq<u8>,
)
    requires
        forall|i: int|
            0 <= i < global.len() ==> (#[trigger] global[i]).key.len() <= 4_000_000 && compact_size(
                global[i].value.len() as u64,
            ).len() + global[i].value.len() <= 4_000_000,
        forall|k: int, i: int|
            0 <= k < inputs.len() && 0 <= i < inputs[k].len()
                ==> (#[trigger] inputs[k][i]).key.len()
                <= 4_000_000 && compact_size(inputs[k][i].value.len() as u64).len()
                + inputs[k][i].value.len() <= 4_000_000,
        forall|k: int, i: int|
            0 <= k < outputs.len() && 0 <= i < outputs[k].len()
                ==> (#[trigger] outputs[k][i]).key.len()
                <= 4_000_000 && compact_size(outputs[k][i].value.len() as u64).len()
                + outputs[k][i].value.len() <= 4_000_000,
        inputs.len() <= u64::MAX,
        outputs.len() <= u64::MAX,
        field(global, 0xFB) matches Some(version) && version.len() > 0 && version[0] == 2,
        field(global, 0x04) == Some(compact_size(inputs.len() as u64)),
        field(global, 0x05) == Some(compact_size(outputs.len() as u64)),
    ensures
        scrubbed(
            seq![0x70u8, 0x73u8, 0x62u8, 0x74u8, 0xffu8] + map_bytes(global) + maps_bytes(inputs)
                + maps_bytes(outputs) + rest,
        ) == Ok::<_, Error>(
            seq![0x70u8, 0x73u8, 0x62u8, 0x74u8, 0xffu8] + map_bytes(
                global.filter(
                    |p: PairView|
                        p.type_value == 0x00 || p.type_value == 0x02 || p.type_value == 0x03
                            || p.type_value == 0x04 || p.type_value == 0x05
                            || p.type_value == 0x06 || p.type_value == 0xFB,
                ),
            ) + maps_bytes(
                inputs.map_values(
                    |map: Seq<PairView>|
                        map.filter(
                            |p: PairView|
                                p.type_value == 0x00 || p.type_value == 0x01
                                    || p.type_value == 0x03 || p.type_value == 0x04
                                    || p.type_value == 0x05 || p.type_value == 0x07
                                    || p.type_value == 0x08 || p.type_value == 0x0e
                                    || p.type_value == 0x0f || p.type_value == 0x10
                                    || p.type_value == 0x11 || p.type_value == 0x12
                                    || p.type_value == 0x13 || p.type_value == 0x14
                                    || p.type_value == 0x15,
                        ),
                ),
            ) + maps_bytes(
                outputs.map_values(
                    |map: Seq<PairView>|
                        map.filter(
                            |p: PairView|
                                p.type_value == 0x03 || p.type_value == 0x04,
                        ),
                ),
            ),
        ),
{
    law_counts_of_version_2(global, inputs.len() as u64, outputs.len() as u64);
    law_scrub_keeps_listed_fields(global, inputs, outputs, rest);
}

/// Law: a PSBT of another version has as many inputs and outputs as its unsigned transaction, field
/// 0x00, and each of these maps is kept, with just the listed key types.
pub proof fn law_scrub_version_0(
    global: Seq<PairView>,
    inputs: Seq<Seq<PairView>>,
    outputs: Seq<Seq<PairView>>,
    rest: Seq<u8>,
)
    requires
        forall|i: int|
            0 <= i < global.len() ==> (#[trigger] global[i]).key.len() <= 4_000_000 && compact_size(
                global[i].value.len() as u64,
            ).len() + global[i].value.len() <= 4_000_000,
        forall|k: int, i: int|
            0 <= k < inputs.len() && 0 <= i < inputs[k].len()
                ==> (#[trigger] inputs[k][i]).key.len()
                <= 4_000_000 && compact_size(inputs[k][i].value.len() as u64).len()
                + inputs[k][i].value.len() <= 4_000_000,
        forall|k: int, i: int|
            0 <= k < outputs.len() && 0 <= i < outputs[k].len()
                ==> (#[trigger] outputs[k][i]).key.len()
                <= 4_000_000 && compact_size(outputs[k][i].value.len() as u64).len()
                + outputs[k][i].value.len() <= 4_000_000,
        inputs.len() <= u64::MAX,
        outputs.len() <= u64::MAX,
        field(global, 0xFB) matches Some(version) ==> version.len() == 0 || version[0] != 2,
        field(global, 0x00) matches Some(tx) && transaction_counts(tx, usize::BITS) == Some(
            (inputs.len() as usize, outputs.len() as usize),
        ),
        inputs.len() <= usize::MAX,
        outputs.len() <= usize::MAX,
    ensures
        scrubbed(
            seq![0x70u8, 0x73u8, 0x62u8, 0x74u8, 0xffu8] + map_bytes(global) + maps_bytes(inputs)
                + maps_bytes(outputs) + rest,
        ) == Ok::<_, Error>(
            seq![0x70u8, 0x73u8, 0x62u8, 0x74u8, 0xffu8] + map_bytes(
                global.filter(
                    |p: PairView|
                        p.type_value == 0x00 || p.type_value == 0x02 || p.type_value == 0x03
                            || p.type_value == 0x04 || p.type_value == 0x05
                            || p.type_value == 0x06 || p.type_value == 0xFB,
                ),
            ) + maps_bytes(
                inputs.map_values(
                    |map: Seq<PairView>|
                        map.filter(
                            |p: PairView|
                                p.type_value == 0x00 || p.type_value == 0x01
                                    || p.type_value == 0x03 || p.type_value == 0x04
                                    || p.type_value == 0x05 || p.type_value == 0x07
                                    || p.type_value == 0x08 || p.type_value == 0x0e
                                    || p.type_value == 0x0f || p.type_value == 0x10
                                    || p.type_value == 0x11 || p.type_value == 0x12
                                    || p.type_value == 0x13 || p.type_value == 0x14
                                    || p.type_value == 0x15,
                        ),
                ),
            ) + maps_bytes(
                outputs.map_values(
                    |map: Seq<PairView>|
                        map.filter(
                            |p: PairView|
                                p.type_value == 0x03 || p.type_value == 0x04,
                        ),
                ),
            ),
        ),
{
    law_counts_of_version_0(global);
    law_scrub_keeps_listed_fields(global, inputs, outputs, rest);
}

/// Law: where a `usize` has 64 bits, what is scrubbed starts with a PSBT: the magic bytes and its
/// maps, as many as its global map says, every pair within the limits.
pub proof fn law_scrubbed_is_psbt(s: Seq<u8>)
    requires
        usize::BITS == 64,
    ensures
        scrubbed(s) is Ok <==> read_psbt(s) is Ok,
        read_psbt(s) matches Ok((psbt, rest)) ==> {
            &&& s == seq![0x70u8, 0x73u8, 0x62u8, 0x74u8, 0xffu8] + map_bytes(psbt.global)
                + maps_bytes(
                psbt.inputs,
            ) + maps_bytes(psbt.outputs) + rest
            &&& counts(psbt.global) matches Ok((n_inputs, n_outputs)) && n_inputs
                == psbt.inputs.len() && n_outputs == psbt.outputs.len()
            &&& map_fits(psbt.global)
            &&& maps_fit(psbt.inputs)
            &&& maps_fit(psbt.outputs)
        },
{
    law_lens_uncut(s);
    law_psbt_read_then_written(s);
    law_read_psbt_is_valid(s);
}

/// Law: the output of scrubbing is a PSBT whose global map is for exactly as many inputs and
/// outputs as there are maps: the compact sizes in its fields 0x04 and 0x05 say so in version 2,
/// else its unsigned transaction.
pub proof fn law_output_states_its_counts(s: Seq<u8>)
    ensures
        scrubbed(s) matches Ok(out) ==> {
            &&& read_psbt(out) matches Ok((left, rest))
            &&& rest.len() == 0
            &&& (field(left.global, 0xFB) matches Some(version) && version.len() > 0 && version[0]
                == 2) ==> field(left.global, 0x04) == Some(compact_size(left.inputs.len() as u64))
                && field(left.global, 0x05) == Some(compact_size(left.outputs.len() as u64))
                && left.inputs.len() <= u64::MAX && left.outputs.len() <= u64::MAX
            &&& (field(left.global, 0xFB) matches Some(version) ==> version.len() == 0 || version[0]
                != 2) ==> (field(left.global, 0x00) matches Some(tx) && transaction_counts(
                tx,
                usize::BITS,
            ) matches Some((i, o)) && i == left.inputs.len() && o == left.outputs.len())
        },
{
    law_output_is_stripped_psbt(s);
    if let Ok(out) = scrubbed(s) {
        law_read_psbt_is_valid(out);
        let (left, _) = read_psbt(out)->Ok_0;
        let (n_inputs, n_outputs) = counts(left.global)->Ok_0;
        if field(left.global, 0xFB) matches Some(version) && version.len() > 0 && version[0] == 2 {
            law_counts_of_version_2(left.global, n_inputs, n_outputs);
        } else {
            law_counts_of_version_0(left.global);
        }
    }
}

/// Law: reading a PSBT whose global map is known takes so many maps for its inputs and so many for
/// its outputs, and fails only for want of such maps.
pub proof fn law_read_body(global: Seq<PairView>, s: Seq<u8>, n_inputs: u64, n_outputs: u64)
    ensures
        match read_maps(s, (n_inputs + n_outputs) as nat) {
            None => read_body(global, s, n_inputs, n_outputs) == Err::<(PsbtView, Seq<u8>), _>(
                Error::UnexpectedEof,
            ),
            Some((maps, rest)) => read_body(global, s, n_inputs, n_outputs) matches Ok((psbt, behind))
                && psbt.global == global && psbt.inputs == maps.take(n_inputs as int)
                && psbt.outputs == maps.skip(n_inputs as int) && behind == rest,
        },
{
    law_read_maps_add(s, n_inputs as nat, n_outputs as nat);
    assert(n_inputs as nat + n_outputs as nat == (n_inputs + n_outputs) as nat);
    lemma_read_maps(s, n_inputs as nat);
    if let Some((inputs, mid)) = read_maps(s, n_inputs as nat) {
        if let Some((outputs, _)) = read_maps(mid, n_outputs as nat) {
            assert((inputs + outputs).take(n_inputs as int) =~= inputs);
            assert((inputs + outputs).skip(n_inputs as int) =~= outputs);
        }
    }
}

/// Writing a map goes on at a pair in the middle of it, and so does keeping its pairs.
proof fn lemma_pair_between(
    kind: MapKind,
    front: Seq<PairView>,
    pair: PairView,
    back: Seq<PairView>,
)
    ensures
        map_bytes(front + seq![pair] + back) == pairs_bytes(front) + pair_bytes(pair)
            + pairs_bytes(back) + seq![0u8],
        map_bytes(retained(kind, front + seq![pair] + back)) == pairs_bytes(retained(kind, front))
            + (if kind.retains(pair.type_value) {
            pair_bytes(pair)
        } else {
            Seq::empty()
        }) + pairs_bytes(retained(kind, back)) + seq![0u8],
        map_fits(front) && map_fits(back) && pair_fits(pair) ==> map_fits(
            front + seq![pair] + back,
        ),
{
    lemma_pairs_bytes_add(front + seq![pair], back);
    lemma_pairs_bytes_add(front, seq![pair]);
    lemma_pairs_bytes_one(pair);
    lemma_retained_add(kind, front + seq![pair], back);
    lemma_retained_add(kind, front, seq![pair]);
    lemma_retained_one(kind, pair);
    let one = retained(kind, seq![pair]);
    lemma_pairs_bytes_add(retained(kind, front) + one, retained(kind, back));
    lemma_pairs_bytes_add(retained(kind, front), one);
}

/// Writing maps goes on at a map in the middle of them, and so does keeping their pairs.
proof fn lemma_map_between(
    kind: MapKind,
    before: Seq<Seq<PairView>>,
    map: Seq<PairView>,
    after: Seq<Seq<PairView>>,
)
    ensures
        maps_bytes(before + seq![map] + after) == maps_bytes(before) + map_bytes(map) + maps_bytes(
            after,
        ),
        maps_bytes(all_retained(kind, before + seq![map] + after)) == maps_bytes(
            all_retained(kind, before),
        ) + map_bytes(retained(kind, map)) + maps_bytes(all_retained(kind, after)),
        maps_fit(before) && maps_fit(after) && map_fits(map) ==> maps_fit(
            before + seq![map] + after,
        ),
{
    lemma_maps_bytes_add(before + seq![map], after);
    lemma_maps_bytes_add(before, seq![map]);
    lemma_maps_bytes_one(map);
    let left = retained(kind, map);
    assert(all_retained(kind, before + seq![map] + after) =~= all_retained(kind, before)
        + seq![left] + all_retained(kind, after));
    lemma_maps_bytes_add(all_retained(kind, before) + seq![left], all_retained(kind, after));
    lemma_maps_bytes_add(all_retained(kind, before), seq![left]);
    lemma_maps_bytes_one(left);
}

/// Parts, grouped by map, are those parts one behind the other.
proof fn lemma_ungroup(
    head: Seq<u8>,
    before: Seq<u8>,
    front: Seq<u8>,
    pair: Seq<u8>,
    back: Seq<u8>,
    end: Seq<u8>,
    after: Seq<u8>,
)
    ensures
        head + (before + (front + pair + back + end) + after) == head + before + front + pair + back
            + end + after,
        head + (front + pair + back + end) == head + front + pair + back + end,
{
    assert(head + (before + (front + pair + back + end) + after) =~= head + before + front + pair
        + back + end + after);
    assert(head + (front + pair + back + end) =~= head + front + pair + back + end);
}

/// Law: in a global map, a pair leaves its very bytes in the output where the byte of its type is
/// listed, and
/// no trace of it where that is not listed; nothing else of the output depends on the pair.
pub proof fn law_pair_of_global_map(
    front: Seq<PairView>,
    type_value: u8,
    key: Seq<u8>,
    value: Seq<u8>,
    back: Seq<PairView>,
    inputs: Seq<Seq<PairView>>,
    outputs: Seq<Seq<PairView>>,
    rest: Seq<u8>,
)
    requires
        counts(front + seq![(PairView { type_value, key, value })] + back) matches Ok(
            (n_inputs, n_outputs),
        ) && n_inputs == inputs.len() && n_outputs == outputs.len(),
        maps_fit(inputs),
        maps_fit(outputs),
        map_fits(front),
        map_fits(back),
        key.len() <= 4_000_000,
        compact_size(value.len() as u64).len() + value.len() <= 4_000_000,
    ensures
        scrubbed(
            seq![0x70u8, 0x73u8, 0x62u8, 0x74u8, 0xffu8] + pairs_bytes(front)
                + (compact_size((key.len() + 1) as u64)
                + seq![type_value] + key + compact_size(value.len() as u64) + value)
                    + pairs_bytes(back) + seq![0u8] + maps_bytes(inputs) + maps_bytes(outputs)
                    + rest,
        ) == Ok::<_, Error>(
            seq![0x70u8, 0x73u8, 0x62u8, 0x74u8, 0xffu8]
                + pairs_bytes(retained(MapKind::Global, front)) + (if type_value == 0x00
                || type_value == 0x02 || type_value == 0x03
                || type_value == 0x04 || type_value == 0x05 || type_value == 0x06
                || type_value == 0xFB {
                compact_size((key.len() + 1) as u64) + seq![type_value] + key + compact_size(
                    value.len() as u64,
                ) + value
            } else {
                Seq::<u8>::empty()
            }) + pairs_bytes(retained(MapKind::Global, back)) + seq![0u8]
                + maps_bytes(all_retained(MapKind::Input, inputs))
                + maps_bytes(all_retained(MapKind::Output, outputs)),
        ),
{
    let pair = PairView { type_value, key, value };
    let map = front + seq![pair] + back;
    let bytes = pair_bytes(pair);
    let kept = if MapKind::Global.retains(type_value) {
        bytes
    } else {
        Seq::empty()
    };
    let psbt = PsbtView { global: map, inputs, outputs };
    lemma_pair_between(MapKind::Global, front, pair, back);
    law_scrub_of_written(psbt, rest);
    lemma_ungroup(
        magic(),
        Seq::empty(),
        pairs_bytes(front),
        bytes,
        pairs_bytes(back),
        seq![0u8],
        Seq::empty(),
    );
    lemma_ungroup(
        magic(),
        Seq::empty(),
        pairs_bytes(retained(MapKind::Global, front)),
        kept,
        pairs_bytes(retained(MapKind::Global, back)),
        seq![0u8],
        Seq::empty(),
    );
}

/// Law: in an input's map, a pair leaves its very bytes in the output where the byte of its type
/// is listed, and
/// no trace of it where that is not listed; nothing else of the output depends on the pair.
pub proof fn law_pair_of_input_map(
    global: Seq<PairView>,
    before: Seq<Seq<PairView>>,
    front: Seq<PairView>,
    type_value: u8,
    key: Seq<u8>,
    value: Seq<u8>,
    back: Seq<PairView>,
    after: Seq<Seq<PairView>>,
    outputs: Seq<Seq<PairView>>,
    rest: Seq<u8>,
)
    requires
        counts(global) matches Ok((n_inputs, n_outputs)) && n_inputs == before.len() + 1
            + after.len() && n_outputs == outputs.len(),
        map_fits(global),
        maps_fit(before),
        maps_fit(after),
        maps_fit(outputs),
        map_fits(front),
        map_fits(back),
        key.len() <= 4_000_000,
        compact_size(value.len() as u64).len() + value.len() <= 4_000_000,
    ensures
        scrubbed(
            seq![0x70u8, 0x73u8, 0x62u8, 0x74u8, 0xffu8] + map_bytes(global) + maps_bytes(before)
                + pairs_bytes(front) + (compact_size((key.len() + 1) as u64)
                + seq![type_value] + key + compact_size(value.len() as u64) + value)
                    + pairs_bytes(back) + seq![0u8] + maps_bytes(after) + maps_bytes(outputs)
                    + rest,
        ) == Ok::<_, Error>(
            seq![0x70u8, 0x73u8, 0x62u8, 0x74u8, 0xffu8]
                + map_bytes(retained(MapKind::Global, global))
                + maps_bytes(all_retained(MapKind::Input, before))
                + pairs_bytes(retained(MapKind::Input, front)) + (if type_value == 0x00
                || type_value == 0x01 || type_value == 0x03
                || type_value == 0x04 || type_value == 0x05 || type_value == 0x07
                || type_value == 0x08 || type_value == 0x0e || type_value == 0x0f
                || type_value == 0x10 || type_value == 0x11 || type_value == 0x12
                || type_value == 0x13 || type_value == 0x14 || type_value == 0x15 {
                compact_size((key.len() + 1) as u64) + seq![type_value] + key + compact_size(
                    value.len() as u64,
                ) + value
            } else {
                Seq::<u8>::empty()
            }) + pairs_bytes(retained(MapKind::Input, back)) + seq![0u8]
                + maps_bytes(all_retained(MapKind::Input, after))
                + maps_bytes(all_retained(MapKind::Output, outputs)),
        ),
{
    let pair = PairView { type_value, key, value };
    let map = front + seq![pair] + back;
    let bytes = pair_bytes(pair);
    let kept = if MapKind::Input.retains(type_value) {
        bytes
    } else {
        Seq::empty()
    };
    let psbt = PsbtView { global, inputs: before + seq![map] + after, outputs };
    lemma_pair_between(MapKind::Input, front, pair, back);
    lemma_map_between(MapKind::Input, before, map, after);
    law_scrub_of_written(psbt, rest);
    lemma_ungroup(
        magic() + map_bytes(global),
        maps_bytes(before),
        pairs_bytes(front),
        bytes,
        pairs_bytes(back),
        seq![0u8],
        maps_bytes(after),
    );
    lemma_ungroup(
        magic() + map_bytes(retained(MapKind::Global, global)),
        maps_bytes(all_retained(MapKind::Input, before)),
        pairs_bytes(retained(MapKind::Input, front)),
        kept,
        pairs_bytes(retained(MapKind::Input, back)),
        seq![0u8],
        maps_bytes(all_retained(MapKind::Input, after)),
    );
}

/// Law: in an output's map, a pair leaves its very bytes in the output where the byte of its type
/// is listed, and
/// no trace of it where that is not listed; nothing else of the output depends on the pair.
pub proof fn law_pair_of_output_map(
    global: Seq<PairView>,
    inputs: Seq<Seq<PairView>>,
    before: Seq<Seq<PairView>>,
    front: Seq<PairView>,
    type_value: u8,
    key: Seq<u8>,
    value: Seq<u8>,
    back: Seq<PairView>,
    after: Seq<Seq<PairView>>,
    rest: Seq<u8>,
)
    requires
        counts(global) matches Ok((n_inputs, n_outputs)) && n_inputs == inputs.len() && n_outputs
            == before.len() + 1 + after.len(),
        map_fits(global),
        maps_fit(inputs),
        maps_fit(before),
        maps_fit(after),
        map_fits(front),
        map_fits(back),
        key.len() <= 4_000_000,
        compact_size(value.len() as u64).len() + value.len() <= 4_000_000,
    ensures
        scrubbed(
            seq![0x70u8, 0x73u8, 0x62u8, 0x74u8, 0xffu8] + map_bytes(global) + maps_bytes(inputs)
                + maps_bytes(before) + pairs_bytes(front) + (compact_size((key.len() + 1) as u64)
                + seq![type_value] + key + compact_size(value.len() as u64) + value)
                    + pairs_bytes(back) + seq![0u8] + maps_bytes(after) + rest,
        ) == Ok::<_, Error>(
            seq![0x70u8, 0x73u8, 0x62u8, 0x74u8, 0xffu8]
                + map_bytes(retained(MapKind::Global, global))
                + maps_bytes(all_retained(MapKind::Input, inputs))
                + maps_bytes(all_retained(MapKind::Output, before))
                + pairs_bytes(retained(MapKind::Output, front)) + (if type_value == 0x03
                || type_value == 0x04 {
                compact_size((key.len() + 1) as u64) + seq![type_value] + key + compact_size(
                    value.len() as u64,
                ) + value
            } else {
                Seq::<u8>::empty()
            }) + pairs_bytes(retained(MapKind::Output, back)) + seq![0u8]
                + maps_bytes(all_retained(MapKind::Output, after)),
        ),
{
    let pair = PairView { type_value, key, value };
    let map = front + seq![pair] + back;
    let bytes = pair_bytes(pair);
    let kept = if MapKind::Output.retains(type_value) {
        bytes
    } else {
        Seq::empty()
    };
    let psbt = PsbtView { global, inputs, outputs: before + seq![map] + after };
    lemma_pair_between(MapKind::Output, front, pair, back);
    lemma_map_between(MapKind::Output, before, map, after);
    law_scrub_of_written(psbt, rest);
    lemma_ungroup(
        magic() + map_bytes(global) + maps_bytes(inputs),
        maps_bytes(before),
        pairs_bytes(front),
        bytes,
        pairs_bytes(back),
        seq![0u8],
        maps_bytes(after),
    );
    lemma_ungroup(
        magic() + map_bytes(retained(MapKind::Global, global))
            + maps_bytes(all_retained(MapKind::Input, inputs)),
        maps_bytes(all_retained(MapKind::Output, before)),
        pairs_bytes(retained(MapKind::Output, front)),
        kept,
        pairs_bytes(retained(MapKind::Output, back)),
        seq![0u8],
        maps_bytes(all_retained(MapKind::Output, after)),
    );
}

} // verus!
