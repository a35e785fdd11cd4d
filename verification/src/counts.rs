//! How many inputs and outputs a PSBT has, according to its global map.

use vstd::prelude::*;

use crate::consensus::{deserialize_transaction, deserialize_var_int, transaction_counts};
use crate::error::Error;
use crate::fields::GlobalInsensitive;
use crate::pair::{pair_views, Pair, PairView};
use crate::wire::{compact_size, exact_compact_size, law_exact_compact_size};

verus! {

/// The value of the first pair of `map` whose key is the type `type_value` and nothing else.
pub open spec fn field(map: Seq<PairView>, type_value: u8) -> Option<Seq<u8>>
    decreases map.len(),
{
    if map.len() == 0 {
        None
    } else if map[0].type_value == type_value && map[0].key.len() == 0 {
        Some(map[0].value)
    } else {
        field(map.skip(1), type_value)
    }
}

/// Whether a global map is that of a version 2 PSBT: the first byte of its version is 2.
pub open spec fn version_2(global: Seq<PairView>) -> bool {
    match field(global, GlobalInsensitive::Version.key_type()) {
        None => false,
        Some(version) => version.len() > 0 && version[0] == 2,
    }
}

/// The number that the field `kind` of a global map holds, if there is such a field and it holds
/// a number.
pub open spec fn count_field(global: Seq<PairView>, kind: GlobalInsensitive) -> Option<u64> {
    match field(global, kind.key_type()) {
        None => None,
        Some(value) => exact_compact_size(value),
    }
}

/// The numbers of inputs and outputs that two fields of a version 2 global map state.
pub open spec fn stated_counts(global: Seq<PairView>) -> Result<(u64, u64), Error> {
    match (
        count_field(global, GlobalInsensitive::InputCount),
        count_field(global, GlobalInsensitive::OutputCount),
    ) {
        (Some(n_inputs), Some(n_outputs)) => Ok((n_inputs, n_outputs)),
        _ => Err(Error::InvalidGlobal),
    }
}

/// The numbers of inputs and outputs where the unsigned transaction of a version 0 global map has
/// been decoded to one that has so many, or has failed to decode.
pub open spec fn counts_of_decoded(decoded: Option<(usize, usize)>) -> Result<(u64, u64), Error> {
    match decoded {
        None => Err(Error::InvalidGlobal),
        Some((n_inputs, n_outputs)) => Ok((n_inputs as u64, n_outputs as u64)),
    }
}

/// The numbers of inputs and outputs of a PSBT with the global map `global`.
pub open spec fn counts(global: Seq<PairView>) -> Result<(u64, u64), Error> {
    if version_2(global) {
        stated_counts(global)
    } else {
        match field(global, GlobalInsensitive::UnsignedTx.key_type()) {
            None => Err(Error::InvalidGlobal),
            Some(tx) => counts_of_decoded(transaction_counts(tx, usize::BITS)),
        }
    }
}

/// Finds the value of the first pair of `map` whose key is the type `type_value` and nothing
/// else.
pub fn find_field(map: &[Pair], type_value: u8) -> (value: Option<&Vec<u8>>)
    ensures
        field(pair_views(map@), type_value) == (match value {
            None => None,
            Some(bytes) => Some(bytes@),
        }),
        value matches Some(bytes) ==> exists|i: int|
            0 <= i < map@.len() && (#[trigger] map@[i]).key.type_value == type_value
                && map@[i].key.key@.len() == 0 && map@[i].value@ == bytes@ && forall|j: int|
                0 <= j < i ==> !((#[trigger] map@[j]).key.type_value == type_value
                    && map@[j].key.key@.len() == 0),
        value is None ==> forall|j: int|
            0 <= j < map@.len() ==> !((#[trigger] map@[j]).key.type_value == type_value
                && map@[j].key.key@.len() == 0),
{
    let ghost views = pair_views(map@);
    assert(views.skip(0) =~= views);
    for i in 0..map.len()
        invariant
            views == pair_views(map@),
            field(views, type_value) == field(views.skip(i as int), type_value),
            forall|j: int|
                0 <= j < i ==> !((#[trigger] map@[j]).key.type_value == type_value
                    && map@[j].key.key@.len() == 0),
    {
        let pair = &map[i];
        assert(views.skip(i as int)[0] == pair@);
        assert(views.skip(i as int).skip(1) =~= views.skip(i + 1));
        if pair.key.type_value == type_value && pair.key.key.is_empty() {
            return Some(&pair.value);
        }
    }
    None
}

/// Reads the number that the field `kind` of a global map holds.
pub fn read_count_field(global: &[Pair], kind: GlobalInsensitive) -> (n: Option<u64>)
    ensures
        n == count_field(pair_views(global@), kind),
{
    match find_field(global, kind.key_type()) {
        None => None,
        Some(value) => match deserialize_var_int(value) {
            Ok(n) => Some(n),
            Err(_) => None,
        },
    }
}

/// Tells whether a global map is that of a version 2 PSBT.
pub fn is_version_2(global: &[Pair]) -> (is_v2: bool)
    ensures
        is_v2 == version_2(pair_views(global@)),
        is_v2 <==> exists|i: int|
            0 <= i < global@.len() && (#[trigger] global@[i]).key.type_value == 0xFB
                && global@[i].key.key@.len() == 0 && global@[i].value@.len() > 0
                && global@[i].value@[0] == 2 && forall|j: int|
                0 <= j < i ==> !((#[trigger] global@[j]).key.type_value == 0xFB
                    && global@[j].key.key@.len() == 0),
{
    match find_field(global, GlobalInsensitive::Version.key_type()) {
        None => false,
        Some(version) => version.len() > 0 && version[0] == 2,
    }
}

/// Takes what decoding the unsigned transaction has given, its numbers of inputs and outputs or
/// `None` where it failed, for the numbers of inputs and outputs of the PSBT.
pub fn number_from_decoded(decoded: Option<(usize, usize)>) -> (result: Result<(u64, u64), Error>)
    ensures
        result == counts_of_decoded(decoded),
        decoded matches Some((n_inputs, n_outputs)) ==> (result matches Ok((a, b)) && a == n_inputs
            && b == n_outputs),
        decoded is None ==> result == Err::<(u64, u64), Error>(Error::InvalidGlobal),
{
    match decoded {
        None => Err(Error::InvalidGlobal),
        Some((n_inputs, n_outputs)) => Ok((n_inputs as u64, n_outputs as u64)),
    }
}

/// Determines the numbers of inputs and outputs of a PSBT from its global map: from two fields of
/// it in version 2, else from the unsigned transaction.
pub fn get_number_of_inputs_and_outputs(global: &[Pair]) -> (result: Result<(u64, u64), Error>)
    ensures
        result == counts(pair_views(global@)),
        result matches Err(error) ==> error == Error::InvalidGlobal,
{
    if is_version_2(global) {
        return match (
            read_count_field(global, GlobalInsensitive::InputCount),
            read_count_field(global, GlobalInsensitive::OutputCount),
        ) {
            (Some(n_inputs), Some(n_outputs)) => Ok((n_inputs, n_outputs)),
            _ => Err(Error::InvalidGlobal),
        };
    }
    let tx_bytes = match find_field(global, GlobalInsensitive::UnsignedTx.key_type()) {
        None => return Err(Error::InvalidGlobal),
        Some(value) => value,
    };
    match deserialize_transaction(tx_bytes) {
        Ok(decoded) => number_from_decoded(Some(decoded)),
        Err(_) => number_from_decoded(None),
    }
}

/// Law: a field is the first pair whose key is its type and nothing else.
pub proof fn law_field_is_first(map: Seq<PairView>, type_value: u8, i: int)
    requires
        0 <= i < map.len(),
        map[i].type_value == type_value,
        map[i].key.len() == 0,
        forall|j: int|
            0 <= j < i ==> !((#[trigger] map[j]).type_value == type_value && map[j].key.len()
                == 0),
    ensures
        field(map, type_value) == Some(map[i].value),
    decreases i,
{
    if i > 0 {
        let rest = map.skip(1);
        assert(!(map[0].type_value == type_value && map[0].key.len() == 0));
        assert forall|j: int| 0 <= j < i - 1 implies !((#[trigger] rest[j]).type_value
            == type_value && rest[j].key.len() == 0) by {
            assert(rest[j] == map[j + 1]);
        }
        law_field_is_first(rest, type_value, i - 1);
    }
}

/// Law: there is no field where no pair's key is its type and nothing else.
pub proof fn law_field_absent(map: Seq<PairView>, type_value: u8)
    requires
        forall|j: int|
            0 <= j < map.len() ==> !((#[trigger] map[j]).type_value == type_value
                && map[j].key.len() == 0),
    ensures
        field(map, type_value) is None,
    decreases map.len(),
{
    if map.len() > 0 {
        let rest = map.skip(1);
        assert(!(map[0].type_value == type_value && map[0].key.len() == 0));
        assert forall|j: int| 0 <= j < rest.len() implies !((#[trigger] rest[j]).type_value
            == type_value && rest[j].key.len() == 0) by {
            assert(rest[j] == map[j + 1]);
        }
        law_field_absent(rest, type_value);
    }
}

/// Law: a global map is of version 2 exactly where the first pair with the bare key 0xFB has a
/// value that starts with the byte 2, whatever else the map holds.
pub proof fn law_version_2_is_first_version_field(global: Seq<PairView>)
    ensures
        version_2(global) <==> exists|i: int|
            0 <= i < global.len() && (#[trigger] global[i]).type_value == 0xFB
                && global[i].key.len() == 0 && global[i].value.len() > 0 && global[i].value[0] == 2
                && forall|j: int|
                0 <= j < i ==> !((#[trigger] global[j]).type_value == 0xFB && global[j].key.len()
                    == 0),
{
    if exists|i: int|
        0 <= i < global.len() && (#[trigger] global[i]).type_value == 0xFB && global[i].key.len()
            == 0 {
        let i = lemma_first(global, 0xFB);
        law_field_is_first(global, 0xFB, i);
    } else {
        law_field_absent(global, 0xFB);
    }
}

/// Where there are pairs with a bare key, one of them is the first.
proof fn lemma_first(map: Seq<PairView>, type_value: u8) -> (i: int)
    requires
        exists|i: int|
            0 <= i < map.len() && (#[trigger] map[i]).type_value == type_value && map[i].key.len()
                == 0,
    ensures
        0 <= i < map.len(),
        map[i].type_value == type_value,
        map[i].key.len() == 0,
        forall|j: int|
            0 <= j < i ==> !((#[trigger] map[j]).type_value == type_value && map[j].key.len()
                == 0),
    decreases map.len(),
{
    if map[0].type_value == type_value && map[0].key.len() == 0 {
        0
    } else {
        let rest = map.skip(1);
        let k = choose|k: int|
            0 <= k < map.len() && (#[trigger] map[k]).type_value == type_value && map[k].key.len()
                == 0;
        assert(rest[k - 1] == map[k]);
        let i = lemma_first(rest, type_value);
        assert forall|j: int| 0 <= j < i + 1 implies !((#[trigger] map[j]).type_value
            == type_value && map[j].key.len() == 0) by {
            if j > 0 {
                assert(map[j] == rest[j - 1]);
            }
        }
        i + 1
    }
}

/// Law: global maps with the same version field are of the same version.
pub proof fn law_version_depends_on_version_field(global: Seq<PairView>, other: Seq<PairView>)
    requires
        field(global, 0xFB) == field(other, 0xFB),
    ensures
        version_2(global) == version_2(other),
{
}

/// Law: a field holds the number whose compact size its value is, and no other value is a number.
pub proof fn law_count_field(global: Seq<PairView>, kind: GlobalInsensitive, n: u64)
    ensures
        count_field(global, kind) == Some(n) <==> field(global, kind.key_type()) == Some(
            compact_size(n),
        ),
{
    if let Some(value) = field(global, kind.key_type()) {
        law_exact_compact_size(value, n);
    }
}

/// Law: a global map whose version starts with the byte 2 is for `n_inputs` inputs and `n_outputs`
/// outputs exactly where its fields 0x04 and 0x05 are the compact sizes of these; else it is
/// refused.
pub proof fn law_counts_of_version_2(global: Seq<PairView>, n_inputs: u64, n_outputs: u64)
    requires
        field(global, 0xFB) matches Some(version) && version.len() > 0 && version[0] == 2,
    ensures
        counts(global) == Ok::<_, Error>((n_inputs, n_outputs)) <==> field(global, 0x04) == Some(
            compact_size(n_inputs),
        ) && field(global, 0x05) == Some(compact_size(n_outputs)),
        counts(global) matches Err(error) ==> error == Error::InvalidGlobal,
{
    if let Some(value) = field(global, 0x04) {
        law_exact_compact_size(value, n_inputs);
    }
    if let Some(value) = field(global, 0x05) {
        law_exact_compact_size(value, n_outputs);
    }
}

/// Law: a global map whose version does not start with the byte 2 is for as many inputs and
/// outputs as its unsigned transaction, field 0x00, has, and refused without one that decodes.
pub proof fn law_counts_of_version_0(global: Seq<PairView>)
    requires
        field(global, 0xFB) matches Some(version) ==> version.len() == 0 || version[0] != 2,
    ensures
        field(global, 0x00) is None ==> counts(global) == Err::<(u64, u64), _>(
            Error::InvalidGlobal,
        ),
        field(global, 0x00) matches Some(tx) ==> {
            &&& transaction_counts(tx, usize::BITS) is None ==> counts(global) == Err::<
                (u64, u64),
                _,
            >(Error::InvalidGlobal)
            &&& transaction_counts(tx, usize::BITS) matches Some((i, o)) ==> (counts(
                global,
            ) matches Ok((n_inputs, n_outputs)) && n_inputs == i && n_outputs == o)
        },
{
}

/// Law: the counts of a version 2 global map, from its pairs. `v`, `a` and `b` are where the first
/// pairs with the bare keys 0xFB, 0x04 and 0x05 stand.
pub proof fn law_counts_stated_by_pairs(
    global: Seq<PairView>,
    v: int,
    a: int,
    b: int,
    n_inputs: u64,
    n_outputs: u64,
)
    requires
        0 <= v < global.len() && global[v].type_value == 0xFB && global[v].key.len() == 0,
        0 <= a < global.len() && global[a].type_value == 0x04 && global[a].key.len() == 0,
        0 <= b < global.len() && global[b].type_value == 0x05 && global[b].key.len() == 0,
        forall|j: int|
            0 <= j < v ==> !((#[trigger] global[j]).type_value == 0xFB && global[j].key.len()
                == 0),
        forall|j: int|
            0 <= j < a ==> !((#[trigger] global[j]).type_value == 0x04 && global[j].key.len()
                == 0),
        forall|j: int|
            0 <= j < b ==> !((#[trigger] global[j]).type_value == 0x05 && global[j].key.len()
                == 0),
        global[v].value.len() > 0 && global[v].value[0] == 2,
        global[a].value == compact_size(n_inputs),
        global[b].value == compact_size(n_outputs),
    ensures
        counts(global) == Ok::<_, Error>((n_inputs, n_outputs)),
{
    law_field_is_first(global, 0xFB, v);
    law_field_is_first(global, 0x04, a);
    law_field_is_first(global, 0x05, b);
    law_counts_of_version_2(global, n_inputs, n_outputs);
}

/// Law: the counts of a global map without a version, from its pairs. `a` is where the first pair
/// with the bare key 0x00 stands.
pub proof fn law_counts_taken_from_transaction(global: Seq<PairView>, a: int)
    requires
        0 <= a < global.len() && global[a].type_value == 0x00 && global[a].key.len() == 0,
        forall|j: int|
            0 <= j < a ==> !((#[trigger] global[j]).type_value == 0x00 && global[j].key.len()
                == 0),
        forall|j: int|
            0 <= j < global.len() ==> !((#[trigger] global[j]).type_value == 0xFB
                && global[j].key.len() == 0),
    ensures
        transaction_counts(global[a].value, usize::BITS) matches Some((i, o)) ==> (counts(
            global,
        ) matches Ok((n_inputs, n_outputs)) && n_inputs == i && n_outputs == o),
        transaction_counts(global[a].value, usize::BITS) is None ==> counts(global) == Err::<
            (u64, u64),
            _,
        >(Error::InvalidGlobal),
{
    law_field_is_first(global, 0x00, a);
    law_field_absent(global, 0xFB);
}

} // verus!
