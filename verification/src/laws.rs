//! What holds of scrubbing as a whole.

use vstd::prelude::*;

use crate::counts::{counts, field};
use crate::error::Error;
use crate::fields::{GlobalInsensitive, MapKind};
use crate::maps::{
    all_retained, any_pair, keeps, law_all_retained_written_from_input, law_map_lens_uncut,
    law_map_read_then_written, law_map_written_then_read, law_maps_lens_uncut,
    law_maps_read_then_written, law_maps_written_then_read, law_retained_exactly_insensitive,
    law_retained_twice, law_retained_written_from_input, lemma_maps_bytes_add,
    lemma_maps_bytes_one, lemma_pairs_bytes_add, lemma_pairs_bytes_one, lemma_read_map,
    lemma_read_map_extends, lemma_read_maps,
    lemma_read_maps_extends, lemma_retained_add, lemma_retained_fits, lemma_retained_one,
    lemma_retained_shorter, map_bytes, map_fits, maps_bytes, maps_fit, pairs_bytes, read_map,
    read_maps, retained,
};
use crate::pair::{pair_bytes, PairView};
use crate::psbt::{
    all_lens_uncut, kept_bytes, kept_lens_uncut, lens_uncut, magic, psbt_bytes, psbt_valid,
    read_psbt, scrubbed, stripped, PsbtView,
};

verus! {

proof fn lemma_field_retained(global: Seq<PairView>, type_value: u8)
    requires
        GlobalInsensitive::retains(type_value),
    ensures
        field(retained(MapKind::Global, global), type_value) == field(global, type_value),
    decreases global.len(),
{
    if global.len() == 0 {
        reveal(Seq::filter);
    } else {
        let first = global[0];
        let rest = global.skip(1);
        let left = retained(MapKind::Global, rest);
        assert(global =~= seq![first] + rest);
        lemma_field_retained(rest, type_value);
        lemma_retained_add(MapKind::Global, seq![first], rest);
        lemma_retained_one(MapKind::Global, first);
        if MapKind::Global.retains(first.type_value) {
            assert((seq![first] + left).skip(1) =~= left);
        } else {
            assert(Seq::empty() + left =~= left);
        }
    }
}

/// Law: removing the sensitive fields of a global map changes neither what it says of the PSBT's
/// version nor the numbers of inputs and outputs.
pub proof fn law_counts_survive(global: Seq<PairView>)
    ensures
        counts(retained(MapKind::Global, global)) == counts(global),
{
    lemma_field_retained(global, GlobalInsensitive::Version.key_type());
    lemma_field_retained(global, GlobalInsensitive::InputCount.key_type());
    lemma_field_retained(global, GlobalInsensitive::OutputCount.key_type());
    lemma_field_retained(global, GlobalInsensitive::UnsignedTx.key_type());
}

/// Parts behind the magic bytes are those parts one behind the other.
proof fn lemma_behind_magic(a: Seq<u8>, b: Seq<u8>, c: Seq<u8>, rest: Seq<u8>)
    ensures
        magic().is_prefix_of(magic() + a + b + c + rest),
        (magic() + a + b + c + rest).skip(5) == a + (b + (c + rest)),
{
    let s = magic() + a + b + c + rest;
    assert(s.take(5) =~= magic());
    assert(s.skip(5) =~= a + (b + (c + rest)));
}

/// Law: a PSBT that was written is read back, and what follows it stays unread.
pub proof fn law_psbt_written_then_read(psbt: PsbtView, rest: Seq<u8>)
    requires
        psbt_valid(psbt),
    ensures
        read_psbt(psbt_bytes(psbt) + rest) == Ok::<_, Error>((psbt, rest)),
{
    let global = map_bytes(psbt.global);
    let inputs = maps_bytes(psbt.inputs);
    let outputs = maps_bytes(psbt.outputs);
    law_maps_written_then_read(psbt.outputs, rest);
    law_maps_written_then_read(psbt.inputs, outputs + rest);
    law_map_written_then_read(psbt.global, inputs + (outputs + rest));
    lemma_behind_magic(global, inputs, outputs, rest);
}

/// Law: what has been read as a PSBT can be written and read back.
pub proof fn law_read_psbt_is_valid(s: Seq<u8>)
    ensures
        read_psbt(s) matches Ok((psbt, _)) ==> psbt_valid(psbt),
{
    if let Ok((psbt, behind)) = read_psbt(s) {
        lemma_read_map(s.skip(5));
        let (global, rest) = read_map(s.skip(5))->0;
        let (n_inputs, n_outputs) = counts(global)->Ok_0;
        lemma_read_maps(rest, n_inputs as nat);
        let (inputs, rest) = read_maps(rest, n_inputs as nat)->0;
        lemma_read_maps(rest, n_outputs as nat);
    }
}

/// Law: a PSBT that can be written and read back still can without its sensitive fields.
pub proof fn law_stripped_is_valid(psbt: PsbtView)
    requires
        psbt_valid(psbt),
    ensures
        psbt_valid(stripped(psbt)),
{
    law_counts_survive(psbt.global);
    lemma_retained_fits(MapKind::Global, psbt.global);
    lemma_all_retained_fit(MapKind::Input, psbt.inputs);
    lemma_all_retained_fit(MapKind::Output, psbt.outputs);
}

proof fn lemma_all_retained_fit(kind: MapKind, maps: Seq<Seq<PairView>>)
    requires
        maps_fit(maps),
    ensures
        maps_fit(all_retained(kind, maps)),
{
    assert forall|i: int| 0 <= i < maps.len() implies map_fits(
        #[trigger] all_retained(kind, maps)[i],
    ) by {
        lemma_retained_fits(kind, maps[i]);
    }
}

/// Law: a PSBT without its sensitive fields has none left to remove.
pub proof fn law_stripped_twice(psbt: PsbtView)
    ensures
        stripped(stripped(psbt)) == stripped(psbt),
{
    law_retained_twice(MapKind::Global, psbt.global);
    lemma_all_retained_twice(MapKind::Input, psbt.inputs);
    lemma_all_retained_twice(MapKind::Output, psbt.outputs);
}

proof fn lemma_all_retained_twice(kind: MapKind, maps: Seq<Seq<PairView>>)
    ensures
        all_retained(kind, all_retained(kind, maps)) == all_retained(kind, maps),
{
    assert forall|i: int| 0 <= i < maps.len() implies #[trigger] all_retained(
        kind,
        all_retained(kind, maps),
    )[i] == all_retained(kind, maps)[i] by {
        law_retained_twice(kind, maps[i]);
    }
    assert(all_retained(kind, all_retained(kind, maps)) =~= all_retained(kind, maps));
}

/// Law: scrubbing any valid PSBT, whatever follows it, gives that PSBT without its sensitive
/// fields.
pub proof fn law_scrub_of_written(psbt: PsbtView, rest: Seq<u8>)
    requires
        psbt_valid(psbt),
    ensures
        scrubbed(psbt_bytes(psbt) + rest) == Ok::<_, Error>(psbt_bytes(stripped(psbt))),
{
    law_psbt_written_then_read(psbt, rest);
}

/// Law: the output of scrubbing is a PSBT, with nothing behind it: what was read, without its
/// sensitive fields.
pub proof fn law_output_is_stripped_psbt(s: Seq<u8>)
    ensures
        match read_psbt(s) {
            Err(error) => scrubbed(s) == Err::<Seq<u8>, _>(error),
            Ok((psbt, _)) => scrubbed(s) matches Ok(out) && read_psbt(out) == Ok::<_, Error>(
                (stripped(psbt), Seq::<u8>::empty()),
            ),
        },
{
    if let Ok((psbt, _)) = read_psbt(s) {
        law_read_psbt_is_valid(s);
        law_stripped_is_valid(psbt);
        law_psbt_written_then_read(stripped(psbt), Seq::empty());
        let out = psbt_bytes(stripped(psbt));
        assert(out + Seq::<u8>::empty() =~= out);
    }
}

/// Law: the output of scrubbing can be scrubbed.
pub proof fn law_output_is_valid_psbt(s: Seq<u8>)
    ensures
        scrubbed(s) matches Ok(out) ==> scrubbed(out) is Ok,
{
    law_output_is_stripped_psbt(s);
}

/// Law: scrubbing is idempotent: scrubbing an output of scrubbing changes nothing.
pub proof fn law_scrub_idempotent(s: Seq<u8>)
    ensures
        scrubbed(s) matches Ok(out) ==> scrubbed(out) == Ok::<_, Error>(out),
{
    law_output_is_stripped_psbt(s);
    if let Ok((psbt, _)) = read_psbt(s) {
        law_stripped_twice(psbt);
    }
}

/// Law: the output of scrubbing has a field exactly where the input has it, in the same map, and
/// its key type is not a sensitive one for such a map.
pub proof fn law_output_fields_are_insensitive_input_fields(s: Seq<u8>, pair: PairView)
    ensures
        read_psbt(s) matches Ok((psbt, _)) ==> {
            &&& scrubbed(s) matches Ok(out)
            &&& read_psbt(out) matches Ok((left, _))
            &&& left.global.contains(pair) <==> psbt.global.contains(pair)
                && GlobalInsensitive::retains(pair.type_value)
            &&& left.inputs.len() == psbt.inputs.len()
            &&& left.outputs.len() == psbt.outputs.len()
            &&& forall|i: int|
                0 <= i < psbt.inputs.len() ==> ((#[trigger] left.inputs[i]).contains(pair)
                    <==> psbt.inputs[i].contains(pair) && MapKind::Input.retains(pair.type_value))
            &&& forall|i: int|
                0 <= i < psbt.outputs.len() ==> ((#[trigger] left.outputs[i]).contains(pair)
                    <==> psbt.outputs[i].contains(pair) && MapKind::Output.retains(
                    pair.type_value,
                ))
        },
{
    law_output_is_stripped_psbt(s);
    if let Ok((psbt, _)) = read_psbt(s) {
        let left = stripped(psbt);
        law_retained_exactly_insensitive(MapKind::Global, psbt.global, pair);
        assert forall|i: int| 0 <= i < psbt.inputs.len() implies ((
        #[trigger] left.inputs[i]).contains(pair) <==> psbt.inputs[i].contains(pair)
            && MapKind::Input.retains(pair.type_value)) by {
            law_retained_exactly_insensitive(MapKind::Input, psbt.inputs[i], pair);
        }
        assert forall|i: int| 0 <= i < psbt.outputs.len() implies ((
        #[trigger] left.outputs[i]).contains(pair) <==> psbt.outputs[i].contains(pair)
            && MapKind::Output.retains(pair.type_value)) by {
            law_retained_exactly_insensitive(MapKind::Output, psbt.outputs[i], pair);
        }
    }
}

/// Whether `part` stands somewhere in `whole`, in one piece.
pub open spec fn occurs_in(part: Seq<u8>, whole: Seq<u8>) -> bool {
    exists|at: int|
        0 <= at && at + part.len() <= whole.len() && #[trigger] whole.subrange(
            at,
            at + part.len(),
        ) == part
}

proof fn lemma_occurs_between(part: Seq<u8>, before: Seq<u8>, middle: Seq<u8>, behind: Seq<u8>)
    requires
        occurs_in(part, middle),
    ensures
        occurs_in(part, before + middle + behind),
{
    let at = choose|at: int|
        0 <= at && at + part.len() <= middle.len() && #[trigger] middle.subrange(
            at,
            at + part.len(),
        ) == part;
    let whole = before + middle + behind;
    let start = before.len() + at;
    assert(whole.subrange(start, start + part.len()) =~= part);
}

proof fn lemma_pair_occurs_in_map(map: Seq<PairView>, i: int)
    requires
        0 <= i < map.len(),
    ensures
        occurs_in(pair_bytes(map[i]), map_bytes(map)),
{
    let pair = map[i];
    let part = pair_bytes(pair);
    assert(map =~= map.take(i) + seq![pair] + map.skip(i + 1));
    lemma_pairs_bytes_add(map.take(i) + seq![pair], map.skip(i + 1));
    lemma_pairs_bytes_add(map.take(i), seq![pair]);
    lemma_pairs_bytes_one(pair);
    lemma_occurs_in_itself(part);
    lemma_occurs_between(part, pairs_bytes(map.take(i)), part, pairs_bytes(map.skip(i + 1)));
    lemma_occurs_between(part, Seq::empty(), pairs_bytes(map), seq![0u8]);
    lemma_empty_front(pairs_bytes(map));
}

proof fn lemma_occurs_in_itself(part: Seq<u8>)
    ensures
        occurs_in(part, part),
{
    assert(part.subrange(0int, 0int + part.len()) =~= part);
}

proof fn lemma_empty_front(s: Seq<u8>)
    ensures
        Seq::<u8>::empty() + s == s,
{
    assert(Seq::<u8>::empty() + s =~= s);
}

proof fn lemma_pair_occurs_in_maps(maps: Seq<Seq<PairView>>, k: int, i: int)
    requires
        0 <= k < maps.len(),
        0 <= i < maps[k].len(),
    ensures
        occurs_in(pair_bytes(maps[k][i]), maps_bytes(maps)),
{
    let map = maps[k];
    assert(maps =~= maps.take(k) + seq![map] + maps.skip(k + 1));
    lemma_maps_bytes_add(maps.take(k) + seq![map], maps.skip(k + 1));
    lemma_maps_bytes_add(maps.take(k), seq![map]);
    lemma_maps_bytes_one(map);
    lemma_pair_occurs_in_map(map, i);
    lemma_occurs_between(
        pair_bytes(map[i]),
        maps_bytes(maps.take(k)),
        map_bytes(map),
        maps_bytes(maps.skip(k + 1)),
    );
}

/// Whether `pair` is a non-sensitive field of one of the maps of `psbt`.
pub open spec fn has_insensitive_field(psbt: PsbtView, pair: PairView) -> bool {
    ||| psbt.global.contains(pair) && MapKind::Global.retains(pair.type_value)
    ||| MapKind::Input.retains(pair.type_value) && exists|k: int|
        0 <= k < psbt.inputs.len() && (#[trigger] psbt.inputs[k]).contains(pair)
    ||| MapKind::Output.retains(pair.type_value) && exists|k: int|
        0 <= k < psbt.outputs.len() && (#[trigger] psbt.outputs[k]).contains(pair)
}

/// Law: the bytes of every non-sensitive field of a PSBT stand in what it is scrubbed to.
pub proof fn law_insensitive_bytes_preserved(s: Seq<u8>, pair: PairView)
    ensures
        read_psbt(s) matches Ok((psbt, _)) ==> (has_insensitive_field(psbt, pair) ==> (scrubbed(
            s,
        ) matches Ok(out) && occurs_in(pair_bytes(pair), out))),
{
    if let Ok((psbt, _)) = read_psbt(s) {
        let left = stripped(psbt);
        let part = pair_bytes(pair);
        let global = map_bytes(left.global);
        let inputs = maps_bytes(left.inputs);
        let outputs = maps_bytes(left.outputs);
        if psbt.global.contains(pair) && MapKind::Global.retains(pair.type_value) {
            law_retained_exactly_insensitive(MapKind::Global, psbt.global, pair);
            let i = choose|i: int| 0 <= i < left.global.len() && left.global[i] == pair;
            lemma_pair_occurs_in_map(left.global, i);
            lemma_occurs_between(part, magic(), global, inputs);
            lemma_occurs_between(part, Seq::empty(), magic() + global + inputs, outputs);
            lemma_empty_front(magic() + global + inputs);
        }
        if MapKind::Input.retains(pair.type_value) && exists|k: int|
            0 <= k < psbt.inputs.len() && (#[trigger] psbt.inputs[k]).contains(pair) {
            let k = choose|k: int|
                0 <= k < psbt.inputs.len() && (#[trigger] psbt.inputs[k]).contains(pair);
            law_retained_exactly_insensitive(MapKind::Input, psbt.inputs[k], pair);
            let i = choose|i: int| 0 <= i < left.inputs[k].len() && left.inputs[k][i] == pair;
            lemma_pair_occurs_in_maps(left.inputs, k, i);
            lemma_occurs_between(part, magic() + global, inputs, outputs);
        }
        if MapKind::Output.retains(pair.type_value) && exists|k: int|
            0 <= k < psbt.outputs.len() && (#[trigger] psbt.outputs[k]).contains(pair) {
            let k = choose|k: int|
                0 <= k < psbt.outputs.len() && (#[trigger] psbt.outputs[k]).contains(pair);
            law_retained_exactly_insensitive(MapKind::Output, psbt.outputs[k], pair);
            let i = choose|i: int| 0 <= i < left.outputs[k].len() && left.outputs[k][i] == pair;
            lemma_pair_occurs_in_maps(left.outputs, k, i);
            lemma_occurs_between(part, magic() + global + inputs, outputs, Seq::empty());
            assert(psbt_bytes(left) + Seq::<u8>::empty() =~= psbt_bytes(left));
        }
    }
}

/// Law: the output of scrubbing is never longer than the input.
pub proof fn law_output_not_longer(s: Seq<u8>)
    ensures
        scrubbed(s) matches Ok(out) ==> out.len() <= s.len(),
{
    if let Ok((psbt, _)) = read_psbt(s) {
        lemma_read_map(s.skip(5));
        let (global, rest) = read_map(s.skip(5))->0;
        let (n_inputs, n_outputs) = counts(global)->Ok_0;
        lemma_read_maps(rest, n_inputs as nat);
        let (inputs, rest) = read_maps(rest, n_inputs as nat)->0;
        lemma_read_maps(rest, n_outputs as nat);
        lemma_retained_shorter(MapKind::Global, global);
        lemma_all_retained_shorter(MapKind::Input, psbt.inputs);
        lemma_all_retained_shorter(MapKind::Output, psbt.outputs);
    }
}

proof fn lemma_all_retained_shorter(kind: MapKind, maps: Seq<Seq<PairView>>)
    ensures
        maps_bytes(all_retained(kind, maps)).len() <= maps_bytes(maps).len(),
    decreases maps.len(),
{
    if maps.len() > 0 {
        lemma_all_retained_shorter(kind, maps.skip(1));
        lemma_retained_shorter(kind, maps[0]);
        assert(all_retained(kind, maps).skip(1) =~= all_retained(kind, maps.skip(1)));
    }
}

/// Law: a PSBT is read the same whatever follows it.
pub proof fn law_read_psbt_extends(s: Seq<u8>, more: Seq<u8>)
    ensures
        read_psbt(s) matches Ok((psbt, rest)) ==> read_psbt(s + more) == Ok::<_, Error>(
            (psbt, rest + more),
        ),
{
    if let Ok((psbt, behind)) = read_psbt(s) {
        lemma_magic_extends(s, more);
        lemma_read_map_extends(s.skip(5), more);
        let (global, rest) = read_map(s.skip(5))->0;
        let (n_inputs, n_outputs) = counts(global)->Ok_0;
        lemma_read_maps_extends(rest, n_inputs as nat, more);
        let (inputs, rest) = read_maps(rest, n_inputs as nat)->0;
        lemma_read_maps_extends(rest, n_outputs as nat, more);
    }
}

proof fn lemma_magic_extends(s: Seq<u8>, more: Seq<u8>)
    requires
        magic().is_prefix_of(s),
    ensures
        magic().is_prefix_of(s + more),
        (s + more).skip(5) == s.skip(5) + more,
{
    assert((s + more).take(5) =~= s.take(5));
    assert((s + more).skip(5) =~= s.skip(5) + more);
}

/// Law: bytes behind a PSBT do not change what scrubbing gives.
pub proof fn law_trailing_bytes_ignored(s: Seq<u8>, more: Seq<u8>)
    ensures
        scrubbed(s) is Ok ==> scrubbed(s + more) == scrubbed(s),
{
    law_read_psbt_extends(s, more);
}

/// Law: a PSBT that is cut short is refused: as one without magic bytes where it ends within
/// them, and else as one that ends unexpectedly.
pub proof fn law_truncated_is_refused(s: Seq<u8>, len: int)
    requires
        0 <= len < s.len(),
    ensures
        read_psbt(s) matches Ok((_, rest)) ==> (rest.len() == 0 ==> scrubbed(s.take(len))
            == Err::<Seq<u8>, _>(
            if len < 5 {
                Error::InvalidMagic
            } else {
                Error::UnexpectedEof
            },
        )),
{
    let cut = s.take(len);
    let more = s.skip(len);
    assert(cut + more =~= s);
    if read_psbt(s) matches Ok((_, rest)) && rest.len() == 0 {
        law_read_psbt_extends(cut, more);
        if len >= 5 {
            assert(cut.take(5) =~= s.take(5));
            lemma_magic_extends(cut, more);
            lemma_read_map_extends(cut.skip(5), more);
        }
    }
}

/// Bytes that start with the magic bytes are these and what is behind them.
proof fn lemma_from_behind_magic(
    s: Seq<u8>,
    a: Seq<u8>,
    b: Seq<u8>,
    c: Seq<u8>,
    rest: Seq<u8>,
)
    requires
        magic().is_prefix_of(s),
        s.skip(5) == a + (b + (c + rest)),
    ensures
        s == magic() + a + b + c + rest,
{
    lemma_behind_magic(a, b, c, rest);
    let t = magic() + a + b + c + rest;
    assert(s =~= s.take(5) + s.skip(5));
    assert(t =~= t.take(5) + t.skip(5));
}

/// Law: where each length that a PSBT declares for a value fits in a `usize`, the bytes that the
/// PSBT was read from are those that writing it gives.
pub proof fn law_psbt_read_then_written(s: Seq<u8>)
    requires
        all_lens_uncut(s),
    ensures
        read_psbt(s) matches Ok((psbt, rest)) ==> s == psbt_bytes(psbt) + rest,
{
    if let Ok((psbt, behind)) = read_psbt(s) {
        law_map_read_then_written(s.skip(5));
        let (global, rest) = read_map(s.skip(5))->0;
        let (n_inputs, n_outputs) = counts(global)->Ok_0;
        law_maps_read_then_written(rest, n_inputs as nat);
        let (inputs, rest) = read_maps(rest, n_inputs as nat)->0;
        law_maps_read_then_written(rest, n_outputs as nat);
        lemma_from_behind_magic(
            s,
            map_bytes(global),
            maps_bytes(psbt.inputs),
            maps_bytes(psbt.outputs),
            behind,
        );
    }
}

/// Law: a PSBT without sensitive fields, and with nothing behind it, is scrubbed to itself, where
/// each length that it declares for a value fits in a `usize`.
pub proof fn law_clean_psbt_unchanged(s: Seq<u8>)
    requires
        all_lens_uncut(s),
    ensures
        read_psbt(s) matches Ok((psbt, rest)) ==> (rest.len() == 0 && stripped(psbt) == psbt
            ==> scrubbed(s) == Ok::<_, Error>(s)),
{
    if let Ok((psbt, rest)) = read_psbt(s) {
        law_psbt_read_then_written(s);
        if rest.len() == 0 {
            assert(psbt_bytes(psbt) + rest =~= psbt_bytes(psbt));
        }
    }
}

/// Law: the output of scrubbing is the input, the bytes of whole pairs, the sensitive ones, and
/// those behind the PSBT cut out, where each length that the input declares for a non-sensitive
/// value fits in a `usize`.
pub proof fn law_output_is_input_without_sensitive_pairs(s: Seq<u8>)
    requires
        kept_lens_uncut(s),
    ensures
        read_psbt(s) is Ok ==> scrubbed(s) == Ok::<_, Error>(kept_bytes(s)),
{
    if let Ok((psbt, _)) = read_psbt(s) {
        law_retained_written_from_input(MapKind::Global, s.skip(5));
        let (global, rest) = read_map(s.skip(5))->0;
        let (n_inputs, n_outputs) = counts(global)->Ok_0;
        law_all_retained_written_from_input(MapKind::Input, rest, n_inputs as nat);
        let (inputs, rest) = read_maps(rest, n_inputs as nat)->0;
        law_all_retained_written_from_input(MapKind::Output, rest, n_outputs as nat);
        assert(s.take(5) =~= magic());
    }
}

/// Law: on a machine whose `usize` has 64 bits, no length that a PSBT declares for a value is cut.
pub proof fn law_lens_uncut(s: Seq<u8>)
    requires
        usize::BITS == 64,
    ensures
        all_lens_uncut(s),
        kept_lens_uncut(s),
{
    lemma_lens_uncut(any_pair(), any_pair(), any_pair(), s);
    lemma_lens_uncut(keeps(MapKind::Global), keeps(MapKind::Input), keeps(MapKind::Output), s);
}

proof fn lemma_lens_uncut(
    of_global: spec_fn(PairView) -> bool,
    of_inputs: spec_fn(PairView) -> bool,
    of_outputs: spec_fn(PairView) -> bool,
    s: Seq<u8>,
)
    requires
        usize::BITS == 64,
    ensures
        lens_uncut(of_global, of_inputs, of_outputs, s),
{
    law_map_lens_uncut(of_global, s.skip(5));
    if let Some((global, rest)) = read_map(s.skip(5)) {
        if let Ok((n_inputs, n_outputs)) = counts(global) {
            law_maps_lens_uncut(of_inputs, rest, n_inputs as nat);
            if let Some((_, rest)) = read_maps(rest, n_inputs as nat) {
                law_maps_lens_uncut(of_outputs, rest, n_outputs as nat);
            }
        }
    }
}

/// Law: sensitive fields do not influence what scrubbing gives: a PSBT that differs from a valid
/// one in its sensitive fields alone, each small enough to be read, is scrubbed to the same bytes.
pub proof fn law_sensitive_fields_ignored(psbt: PsbtView, other: PsbtView)
    requires
        psbt_valid(psbt),
        map_fits(other.global),
        maps_fit(other.inputs),
        maps_fit(other.outputs),
        stripped(other) == stripped(psbt),
    ensures
        scrubbed(psbt_bytes(other)) is Ok,
        scrubbed(psbt_bytes(other)) == scrubbed(psbt_bytes(psbt)),
{
    law_counts_survive(psbt.global);
    law_counts_survive(other.global);
    assert(stripped(other).inputs.len() == other.inputs.len());
    assert(stripped(other).outputs.len() == other.outputs.len());
    law_scrub_of_written(psbt, Seq::empty());
    law_scrub_of_written(other, Seq::empty());
    assert(psbt_bytes(psbt) + Seq::<u8>::empty() =~= psbt_bytes(psbt));
    assert(psbt_bytes(other) + Seq::<u8>::empty() =~= psbt_bytes(other));
}

} // verus!
