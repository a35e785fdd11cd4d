//! The maps of a PSBT: sequences of pairs, each ended by a zero byte.

use vstd::prelude::*;

use crate::fields::MapKind;
use crate::pair::{
    law_map_end_read, law_map_end_written, law_pair_read_then_written, law_pair_written_then_read,
    lemma_read_pair, lemma_read_pair_extends, pair_bytes, pair_fits, read_pair, value_len_uncut,
    PairView,
};

verus! {

/// Pairs as they stand in a PSBT, one behind the other.
pub open spec fn pairs_bytes(pairs: Seq<PairView>) -> Seq<u8>
    decreases pairs.len(),
{
    if pairs.len() == 0 {
        Seq::empty()
    } else {
        pair_bytes(pairs[0]) + pairs_bytes(pairs.skip(1))
    }
}

/// A map as it stands in a PSBT: its pairs and a zero byte.
pub open spec fn map_bytes(map: Seq<PairView>) -> Seq<u8> {
    pairs_bytes(map) + seq![0u8]
}

/// Maps as they stand in a PSBT, one behind the other.
pub open spec fn maps_bytes(maps: Seq<Seq<PairView>>) -> Seq<u8>
    decreases maps.len(),
{
    if maps.len() == 0 {
        Seq::empty()
    } else {
        map_bytes(maps[0]) + maps_bytes(maps.skip(1))
    }
}

/// Reads a map from the front of `s`: its pairs, and the bytes behind it. `None` where a pair is
/// malformed or `s` ends before the map does.
pub open spec fn read_map(s: Seq<u8>) -> Option<(Seq<PairView>, Seq<u8>)>
    decreases s.len(),
    via read_map_decreases
{
    match read_pair(s) {
        (Err(_), _) => None,
        (Ok(None), rest) => Some((Seq::empty(), rest)),
        (Ok(Some(pair)), rest) => match read_map(rest) {
            None => None,
            Some((pairs, behind)) => Some((seq![pair] + pairs, behind)),
        },
    }
}

#[via_fn]
proof fn read_map_decreases(s: Seq<u8>) {
    lemma_read_pair(s);
}

/// Reads `n` maps from the front of `s`: the maps, and the bytes behind them.
pub open spec fn read_maps(s: Seq<u8>, n: nat) -> Option<(Seq<Seq<PairView>>, Seq<u8>)>
    decreases n,
{
    if n == 0 {
        Some((Seq::empty(), s))
    } else {
        match read_map(s) {
            None => None,
            Some((map, rest)) => match read_maps(rest, (n - 1) as nat) {
                None => None,
                Some((maps, behind)) => Some((seq![map] + maps, behind)),
            },
        }
    }
}

/// Says of a pair whether maps of the kind `kind` keep it.
pub open spec fn keeps(kind: MapKind) -> spec_fn(PairView) -> bool {
    |pair: PairView| kind.retains(pair.type_value)
}

/// What is left of a map of the kind `kind`: its non-sensitive pairs, in their order.
pub open spec fn retained(kind: MapKind, map: Seq<PairView>) -> Seq<PairView> {
    map.filter(keeps(kind))
}

/// What is left of each of `maps`.
pub open spec fn all_retained(kind: MapKind, maps: Seq<Seq<PairView>>) -> Seq<Seq<PairView>> {
    maps.map_values(|map: Seq<PairView>| retained(kind, map))
}

/// Whether every pair of `map` is small enough to be read.
pub open spec fn map_fits(map: Seq<PairView>) -> bool {
    forall|i: int| 0 <= i < map.len() ==> pair_fits(#[trigger] map[i])
}

/// Whether every pair of every one of `maps` is small enough to be read.
pub open spec fn maps_fit(maps: Seq<Seq<PairView>>) -> bool {
    forall|i: int| 0 <= i < maps.len() ==> map_fits(#[trigger] maps[i])
}

/// Says yes of every pair.
pub open spec fn any_pair() -> spec_fn(PairView) -> bool {
    |pair: PairView| true
}

/// Whether each of those pairs of the map at the front of `s` of which `which` says yes declares
/// a length for its value that fits in a `usize`.
pub open spec fn map_lens_uncut(which: spec_fn(PairView) -> bool, s: Seq<u8>) -> bool
    decreases s.len(),
    via map_lens_uncut_decreases
{
    match read_pair(s) {
        (Ok(Some(pair)), rest) => {
            &&& which(pair) ==> value_len_uncut(s)
            &&& map_lens_uncut(which, rest)
        },
        _ => true,
    }
}

#[via_fn]
proof fn map_lens_uncut_decreases(which: spec_fn(PairView) -> bool, s: Seq<u8>) {
    lemma_read_pair(s);
}

/// The same of each of the `n` maps at the front of `s`.
pub open spec fn maps_lens_uncut(which: spec_fn(PairView) -> bool, s: Seq<u8>, n: nat) -> bool
    decreases n,
{
    n > 0 ==> {
        &&& map_lens_uncut(which, s)
        &&& read_map(s) matches Some((_, rest)) ==> maps_lens_uncut(which, rest, (n - 1) as nat)
    }
}

/// The bytes of the map at the front of `s`, without those of its sensitive pairs; the map is of
/// the kind `kind`.
pub open spec fn kept_map_bytes(kind: MapKind, s: Seq<u8>) -> Seq<u8>
    decreases s.len(),
    via kept_map_bytes_decreases
{
    let (result, rest) = read_pair(s);
    let front = s.take(s.len() - rest.len());
    match result {
        Ok(Some(pair)) => if kind.retains(pair.type_value) {
            front + kept_map_bytes(kind, rest)
        } else {
            kept_map_bytes(kind, rest)
        },
        _ => front,
    }
}

#[via_fn]
proof fn kept_map_bytes_decreases(kind: MapKind, s: Seq<u8>) {
    lemma_read_pair(s);
}

/// The bytes of the `n` maps at the front of `s`, without those of their sensitive pairs.
pub open spec fn kept_maps_bytes(kind: MapKind, s: Seq<u8>, n: nat) -> Seq<u8>
    decreases n,
{
    if n == 0 {
        Seq::empty()
    } else {
        match read_map(s) {
            None => Seq::empty(),
            Some((_, rest)) => kept_map_bytes(kind, s) + kept_maps_bytes(
                kind,
                rest,
                (n - 1) as nat,
            ),
        }
    }
}

/// Concatenation is associative.
pub proof fn lemma_regroup(a: Seq<u8>, b: Seq<u8>, c: Seq<u8>)
    ensures
        (a + b) + c == a + (b + c),
{
    assert((a + b) + c =~= a + (b + c));
}

/// Writing a map is writing its first pair, then the map without it.
pub proof fn lemma_map_bytes_first(pair: PairView, pairs: Seq<PairView>)
    ensures
        map_bytes(seq![pair] + pairs) == pair_bytes(pair) + map_bytes(pairs),
{
    assert((seq![pair] + pairs).skip(1) =~= pairs);
    lemma_regroup(pair_bytes(pair), pairs_bytes(pairs), seq![0u8]);
}

pub proof fn lemma_pairs_bytes_add(a: Seq<PairView>, b: Seq<PairView>)
    ensures
        pairs_bytes(a + b) == pairs_bytes(a) + pairs_bytes(b),
    decreases a.len(),
{
    if a.len() == 0 {
        assert(a + b =~= b);
        assert(pairs_bytes(a) + pairs_bytes(b) =~= pairs_bytes(b));
    } else {
        lemma_pairs_bytes_add(a.skip(1), b);
        assert((a + b).skip(1) =~= a.skip(1) + b);
        assert(pairs_bytes(a + b) =~= pairs_bytes(a) + pairs_bytes(b));
    }
}

pub proof fn lemma_pairs_bytes_one(pair: PairView)
    ensures
        pairs_bytes(seq![pair]) == pair_bytes(pair),
{
    assert(pairs_bytes(seq![pair].skip(1)) =~= Seq::empty());
    assert(pair_bytes(pair) + Seq::<u8>::empty() =~= pair_bytes(pair));
}

pub proof fn lemma_maps_bytes_add(a: Seq<Seq<PairView>>, b: Seq<Seq<PairView>>)
    ensures
        maps_bytes(a + b) == maps_bytes(a) + maps_bytes(b),
    decreases a.len(),
{
    if a.len() == 0 {
        assert(a + b =~= b);
        assert(maps_bytes(a) + maps_bytes(b) =~= maps_bytes(b));
    } else {
        lemma_maps_bytes_add(a.skip(1), b);
        assert((a + b).skip(1) =~= a.skip(1) + b);
        assert(maps_bytes(a + b) =~= maps_bytes(a) + maps_bytes(b));
    }
}

pub proof fn lemma_maps_bytes_one(map: Seq<PairView>)
    ensures
        maps_bytes(seq![map]) == map_bytes(map),
{
    assert(maps_bytes(seq![map].skip(1)) =~= Seq::empty());
    assert(map_bytes(map) + Seq::<u8>::empty() =~= map_bytes(map));
}

pub proof fn lemma_retained_add(kind: MapKind, a: Seq<PairView>, b: Seq<PairView>)
    ensures
        retained(kind, a + b) == retained(kind, a) + retained(kind, b),
{
    Seq::filter_distributes_over_add(a, b, keeps(kind));
}

pub proof fn lemma_retained_one(kind: MapKind, pair: PairView)
    ensures
        retained(kind, seq![pair]) == (if kind.retains(pair.type_value) {
            seq![pair]
        } else {
            Seq::empty()
        }),
{
    reveal(Seq::filter);
    assert(seq![pair].drop_last() =~= Seq::empty());
    assert(seq![pair].drop_last().filter(keeps(kind)) =~= Seq::empty());
}

/// What is left of a map takes up no more room than the map.
pub proof fn lemma_retained_shorter(kind: MapKind, map: Seq<PairView>)
    ensures
        pairs_bytes(retained(kind, map)).len() <= pairs_bytes(map).len(),
    decreases map.len(),
{
    if map.len() == 0 {
        reveal(Seq::filter);
    } else {
        let rest = map.skip(1);
        assert(map =~= seq![map[0]] + rest);
        lemma_retained_shorter(kind, rest);
        lemma_retained_add(kind, seq![map[0]], rest);
        lemma_retained_one(kind, map[0]);
        lemma_pairs_bytes_add(retained(kind, seq![map[0]]), retained(kind, rest));
        lemma_pairs_bytes_one(map[0]);
    }
}

/// What has been read of a map fits, and took up at least as many bytes as writing it does.
pub proof fn lemma_read_map(s: Seq<u8>)
    ensures
        read_map(s) matches Some((map, rest)) ==> {
            &&& map_fits(map)
            &&& map_bytes(map).len() + rest.len() <= s.len()
        },
    decreases s.len(),
{
    lemma_read_pair(s);
    if let (Ok(Some(pair)), rest) = read_pair(s) {
        lemma_read_map(rest);
        if let Some((pairs, behind)) = read_map(rest) {
            assert((seq![pair] + pairs).skip(1) =~= pairs);
        }
    }
}

/// A map is read the same whatever follows it.
pub proof fn lemma_read_map_extends(s: Seq<u8>, more: Seq<u8>)
    ensures
        read_map(s) matches Some((map, rest)) ==> read_map(s + more) == Some((map, rest + more)),
    decreases s.len(),
{
    lemma_read_pair(s);
    lemma_read_pair_extends(s, more);
    if let (Ok(Some(pair)), rest) = read_pair(s) {
        lemma_read_map_extends(rest, more);
    }
}

/// Law: a map that was written is read back, and what follows it stays unread.
pub proof fn law_map_written_then_read(map: Seq<PairView>, rest: Seq<u8>)
    requires
        map_fits(map),
    ensures
        read_map(map_bytes(map) + rest) == Some((map, rest)),
    decreases map.len(),
{
    if map.len() == 0 {
        assert(map_bytes(map) + rest =~= seq![0u8] + rest);
        law_map_end_read(rest);
        assert(map =~= Seq::empty());
    } else {
        let tail = map.skip(1);
        law_map_written_then_read(tail, rest);
        law_pair_written_then_read(map[0], map_bytes(tail) + rest);
        assert(map =~= seq![map[0]] + tail);
        lemma_map_bytes_first(map[0], tail);
        lemma_regroup(pair_bytes(map[0]), map_bytes(tail), rest);
    }
}

/// Law: where each length that a map declares for a value fits in a `usize`, the bytes that the
/// map was read from are those that writing it gives.
pub proof fn law_map_read_then_written(s: Seq<u8>)
    requires
        map_lens_uncut(any_pair(), s),
    ensures
        read_map(s) matches Some((map, rest)) ==> s == map_bytes(map) + rest,
    decreases s.len(),
{
    lemma_read_pair(s);
    match read_pair(s) {
        (Ok(Some(pair)), rest) => {
            law_map_read_then_written(rest);
            law_pair_read_then_written(s);
            if let Some((pairs, behind)) = read_map(rest) {
                lemma_map_bytes_first(pair, pairs);
                lemma_regroup(pair_bytes(pair), map_bytes(pairs), behind);
            }
        },
        (Ok(None), rest) => {
            law_map_end_written(s);
            assert(map_bytes(Seq::empty()) =~= seq![0u8]);
        },
        (Err(_), _) => {},
    }
}

/// What has been read of maps is as many maps as were asked for, which fit and took up at least
/// as many bytes as writing them does.
pub proof fn lemma_read_maps(s: Seq<u8>, n: nat)
    ensures
        read_maps(s, n) matches Some((maps, rest)) ==> {
            &&& maps.len() == n
            &&& maps_fit(maps)
            &&& maps_bytes(maps).len() + rest.len() <= s.len()
        },
    decreases n,
{
    if n > 0 {
        lemma_read_map(s);
        if let Some((map, rest)) = read_map(s) {
            lemma_read_maps(rest, (n - 1) as nat);
            if let Some((maps, behind)) = read_maps(rest, (n - 1) as nat) {
                assert((seq![map] + maps).skip(1) =~= maps);
            }
        }
    }
}

/// Maps are read the same whatever follows them.
pub proof fn lemma_read_maps_extends(s: Seq<u8>, n: nat, more: Seq<u8>)
    ensures
        read_maps(s, n) matches Some((maps, rest)) ==> read_maps(s + more, n) == Some(
            (maps, rest + more),
        ),
    decreases n,
{
    if n > 0 {
        lemma_read_map_extends(s, more);
        if let Some((map, rest)) = read_map(s) {
            lemma_read_maps_extends(rest, (n - 1) as nat, more);
        }
    }
}

/// Law: maps that were written are read back, and what follows them stays unread.
pub proof fn law_maps_written_then_read(maps: Seq<Seq<PairView>>, rest: Seq<u8>)
    requires
        maps_fit(maps),
    ensures
        read_maps(maps_bytes(maps) + rest, maps.len()) == Some((maps, rest)),
    decreases maps.len(),
{
    if maps.len() == 0 {
        assert(maps_bytes(maps) + rest =~= rest);
        assert(maps =~= Seq::empty());
    } else {
        let tail = maps.skip(1);
        law_maps_written_then_read(tail, rest);
        law_map_written_then_read(maps[0], maps_bytes(tail) + rest);
        lemma_regroup(map_bytes(maps[0]), maps_bytes(tail), rest);
        assert(maps =~= seq![maps[0]] + tail);
    }
}

/// Law: where each length that maps declare for a value fits in a `usize`, the bytes that the maps
/// were read from are those that writing them gives.
pub proof fn law_maps_read_then_written(s: Seq<u8>, n: nat)
    requires
        maps_lens_uncut(any_pair(), s, n),
    ensures
        read_maps(s, n) matches Some((maps, rest)) ==> s == maps_bytes(maps) + rest,
    decreases n,
{
    if n == 0 {
        assert(maps_bytes(Seq::empty()) + s =~= s);
    } else {
        law_map_read_then_written(s);
        if let Some((map, rest)) = read_map(s) {
            law_maps_read_then_written(rest, (n - 1) as nat);
            if let Some((maps, behind)) = read_maps(rest, (n - 1) as nat) {
                assert((seq![map] + maps).skip(1) =~= maps);
                lemma_regroup(map_bytes(map), maps_bytes(maps), behind);
            }
        }
    }
}

proof fn lemma_front(s: Seq<u8>, front: Seq<u8>, rest: Seq<u8>)
    requires
        s == front + rest,
    ensures
        s.take(s.len() - rest.len()) == front,
{
    assert(s.take(s.len() - rest.len()) =~= front);
}

/// Law: where each length that a map declares for a non-sensitive value fits in a `usize`, what is
/// left of the map is written as the bytes that it was read from, those of the sensitive pairs
/// cut out.
pub proof fn law_retained_written_from_input(kind: MapKind, s: Seq<u8>)
    requires
        map_lens_uncut(keeps(kind), s),
    ensures
        read_map(s) matches Some((map, _)) ==> map_bytes(retained(kind, map)) == kept_map_bytes(
            kind,
            s,
        ),
    decreases s.len(),
{
    lemma_read_pair(s);
    match read_pair(s) {
        (Ok(Some(pair)), rest) => {
            law_retained_written_from_input(kind, rest);
            if let Some((pairs, _)) = read_map(rest) {
                let left = retained(kind, pairs);
                lemma_retained_add(kind, seq![pair], pairs);
                lemma_retained_one(kind, pair);
                if kind.retains(pair.type_value) {
                    assert(keeps(kind)(pair));
                    law_pair_read_then_written(s);
                    lemma_front(s, pair_bytes(pair), rest);
                    lemma_map_bytes_first(pair, left);
                } else {
                    assert(Seq::empty() + left =~= left);
                }
            }
        },
        (Ok(None), rest) => {
            law_map_end_written(s);
            lemma_front(s, seq![0u8], rest);
            reveal(Seq::filter);
            assert(map_bytes(Seq::empty()) =~= seq![0u8]);
        },
        (Err(_), _) => {},
    }
}

/// Law: the same of maps, one behind the other.
pub proof fn law_all_retained_written_from_input(kind: MapKind, s: Seq<u8>, n: nat)
    requires
        maps_lens_uncut(keeps(kind), s, n),
    ensures
        read_maps(s, n) matches Some((maps, _)) ==> maps_bytes(all_retained(kind, maps))
            == kept_maps_bytes(kind, s, n),
    decreases n,
{
    if n > 0 {
        law_retained_written_from_input(kind, s);
        if let Some((map, rest)) = read_map(s) {
            law_all_retained_written_from_input(kind, rest, (n - 1) as nat);
            if let Some((maps, _)) = read_maps(rest, (n - 1) as nat) {
                assert(all_retained(kind, seq![map] + maps).skip(1) =~= all_retained(kind, maps));
            }
        }
    }
}

/// Law: on a machine whose `usize` has 64 bits, no length that a map declares is cut.
pub proof fn law_map_lens_uncut(which: spec_fn(PairView) -> bool, s: Seq<u8>)
    requires
        usize::BITS == 64,
    ensures
        map_lens_uncut(which, s),
    decreases s.len(),
{
    assert(usize::MAX == u64::MAX);
    lemma_read_pair(s);
    if let (Ok(Some(_)), rest) = read_pair(s) {
        law_map_lens_uncut(which, rest);
    }
}

/// Law: on a machine whose `usize` has 64 bits, no length that maps declare is cut.
pub proof fn law_maps_lens_uncut(which: spec_fn(PairView) -> bool, s: Seq<u8>, n: nat)
    requires
        usize::BITS == 64,
    ensures
        maps_lens_uncut(which, s, n),
    decreases n,
{
    if n > 0 {
        law_map_lens_uncut(which, s);
        if let Some((_, rest)) = read_map(s) {
            law_maps_lens_uncut(which, rest, (n - 1) as nat);
        }
    }
}

/// Law: a pair is in what is left of a map exactly where it was in the map and is not sensitive.
pub proof fn law_retained_exactly_insensitive(kind: MapKind, map: Seq<PairView>, pair: PairView)
    ensures
        retained(kind, map).contains(pair) <==> map.contains(pair) && kind.retains(
            pair.type_value,
        ),
    decreases map.len(),
{
    if map.len() == 0 {
        reveal(Seq::filter);
    } else {
        let rest = map.skip(1);
        assert(map =~= seq![map[0]] + rest);
        law_retained_exactly_insensitive(kind, rest, pair);
        lemma_retained_add(kind, seq![map[0]], rest);
        lemma_retained_one(kind, map[0]);
        let first = retained(kind, seq![map[0]]);
        let left = retained(kind, map);
        if map.contains(pair) && kind.retains(pair.type_value) {
            if map[0] == pair {
                assert(left[0] == pair);
            } else {
                let i = choose|i: int| 0 <= i < map.len() && map[i] == pair;
                assert(rest[i - 1] == pair);
                let j = choose|j: int|
                    0 <= j < retained(kind, rest).len() && retained(kind, rest)[j] == pair;
                assert(left[first.len() + j] == pair);
            }
        }
        if left.contains(pair) {
            let j = choose|j: int| 0 <= j < left.len() && left[j] == pair;
            if j < first.len() {
                assert(map[0] == pair);
            } else {
                assert(retained(kind, rest)[j - first.len()] == pair);
                let i = choose|i: int| 0 <= i < rest.len() && rest[i] == pair;
                assert(map[i + 1] == pair);
            }
        }
    }
}

/// Law: what is left of a map stays as it is when sensitive pairs are removed once more.
pub proof fn law_retained_twice(kind: MapKind, map: Seq<PairView>)
    ensures
        retained(kind, retained(kind, map)) == retained(kind, map),
    decreases map.len(),
{
    reveal(Seq::filter);
    if map.len() > 0 {
        let front = map.drop_last();
        law_retained_twice(kind, front);
        lemma_retained_one(kind, map.last());
        if kind.retains(map.last().type_value) {
            lemma_retained_add(kind, retained(kind, front), seq![map.last()]);
            assert(retained(kind, front).push(map.last()) =~= retained(kind, front)
                + seq![map.last()]);
        }
    }
}

/// What is left of a map that fits, fits.
pub proof fn lemma_retained_fits(kind: MapKind, map: Seq<PairView>)
    requires
        map_fits(map),
    ensures
        map_fits(retained(kind, map)),
{
    let left = retained(kind, map);
    assert forall|i: int| 0 <= i < left.len() implies pair_fits(#[trigger] left[i]) by {
        assert(left.contains(left[i]));
        law_retained_exactly_insensitive(kind, map, left[i]);
        let j = choose|j: int| 0 <= j < map.len() && map[j] == left[i];
        assert(pair_fits(map[j]));
    }
}

} // verus!
