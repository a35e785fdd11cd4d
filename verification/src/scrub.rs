//! Scrubbing.

use vstd::prelude::*;

use crate::counts::get_number_of_inputs_and_outputs;
use crate::error::Error;
use crate::fields::MapKind;
use crate::layout::law_scrub_outcome;
use crate::maps::{
    all_retained, lemma_maps_bytes_add, lemma_maps_bytes_one, lemma_pairs_bytes_add,
    lemma_pairs_bytes_one, lemma_read_map, lemma_regroup, lemma_retained_add, lemma_retained_one,
    lemma_retained_shorter, map_bytes, maps_bytes, pairs_bytes, read_map, read_maps, retained,
};
use crate::output::{write_byte, write_bytes};
use crate::pair::{encode_pair, lemma_read_pair, pair_bytes, pair_views, Pair, PairView};
use crate::psbt::{magic, psbt_bytes, read_body, scrubbed, stripped, MAGIC};

verus! {

/// Tells whether `psbt` starts with the magic bytes.
fn starts_with_magic(psbt: &[u8]) -> (starts: bool)
    ensures
        starts == magic().is_prefix_of(psbt@),
{
    if psbt.len() < 5 {
        return false;
    }
    assert(MAGIC@ =~= magic());
    for i in 0..5usize
        invariant
            5 <= psbt@.len(),
            MAGIC@ == magic(),
            forall|j: int| 0 <= j < i ==> psbt@[j] == magic()[j],
    {
        if psbt[i] != MAGIC[i] {
            assert(psbt@.take(5)[i as int] != magic()[i as int]);
            return false;
        }
    }
    assert(psbt@.take(5) =~= magic());
    true
}

/// Decodes a map from the front of `input` and advances `input` past it.
fn decode_map(input: &mut &[u8]) -> (result: Result<Vec<Pair>, Error>)
    ensures
        match read_map((*old(input))@) {
            None => result == Err::<Vec<Pair>, Error>(Error::UnexpectedEof),
            Some((map, rest)) => result matches Ok(pairs) && pair_views(pairs@) == map
                && (*final(input))@ == rest,
        },
{
    let mut map: Vec<Pair> = Vec::new();
    assert(pair_views(map@) =~= Seq::empty());
    loop
        invariant
            match read_map((*input)@) {
                None => read_map((*old(input))@) is None,
                Some((pairs, behind)) => read_map((*old(input))@) == Some(
                    (pair_views(map@) + pairs, behind),
                ),
            },
        decreases (*input)@.len(),
    {
        proof {
            lemma_read_pair((*input)@);
        }
        let ghost before = pair_views(map@);
        match Pair::decode(input) {
            Err(_) => return Err(Error::UnexpectedEof),
            Ok(None) => return Ok(map),
            Ok(Some(pair)) => {
                let ghost view = pair@;
                map.push(pair);
                assert(pair_views(map@) =~= before + seq![view]);
                proof {
                    if let Some((pairs, behind)) = read_map((*input)@) {
                        assert(before + (seq![view] + pairs) =~= pair_views(map@) + pairs);
                    }
                }
            },
        }
    }
}

/// Keeping the pairs of a map goes on pair by pair, and so does writing them.
proof fn lemma_retained_push(kind: MapKind, done: Seq<PairView>, pair: PairView)
    ensures
        pairs_bytes(retained(kind, done + seq![pair])) == pairs_bytes(retained(kind, done)) + (
        if kind.retains(pair.type_value) {
            pair_bytes(pair)
        } else {
            Seq::empty()
        }),
{
    lemma_retained_add(kind, done, seq![pair]);
    lemma_retained_one(kind, pair);
    lemma_pairs_bytes_add(retained(kind, done), retained(kind, seq![pair]));
    lemma_pairs_bytes_one(pair);
}

proof fn lemma_retained_none(kind: MapKind)
    ensures
        pairs_bytes(retained(kind, Seq::empty())) == Seq::<u8>::empty(),
        maps_bytes(all_retained(kind, Seq::empty())) == Seq::<u8>::empty(),
{
    reveal(Seq::filter);
}

/// Writes what is left of the map `map` at the front of `w`.
fn write_retained(kind: MapKind, map: &[Pair], w: &mut &mut [u8])
    requires
        map_bytes(pair_views(map@)).len() <= (**old(w))@.len(),
    ensures
        ({
            let written = map_bytes(retained(kind, pair_views(map@)));
            &&& (**final(w))@ == (**old(w))@.skip(written.len() as int)
            &&& (*final(*old(w)))@ == written + (*final(*final(w)))@
        }),
{
    let ghost views = pair_views(map@);
    let ghost room = (**w)@;
    proof {
        lemma_retained_none(kind);
        assert(views.take(0) =~= Seq::empty());
    }
    for i in 0..map.len()
        invariant
            views == pair_views(map@),
            room == (**old(w))@,
            map_bytes(views).len() <= room.len(),
            ({
                let written = pairs_bytes(retained(kind, views.take(i as int)));
                &&& (**w)@ == room.skip(written.len() as int)
                &&& (*final(*old(w)))@ == written + (*final(*w))@
                &&& written.len() < room.len()
            }),
    {
        let pair = &map[i];
        let ghost before = pairs_bytes(retained(kind, views.take(i as int)));
        let ghost next = views.take(i + 1);
        proof {
            assert(pair@ == views[i as int]);
            assert(next =~= views.take(i as int) + seq![pair@]);
            lemma_retained_push(kind, views.take(i as int), pair@);
            lemma_retained_shorter(kind, next);
            assert(views =~= next + views.skip(i + 1));
            lemma_pairs_bytes_add(next, views.skip(i + 1));
        }
        if kind.retains(pair.key.type_value) {
            encode_pair(w, pair);
            proof {
                lemma_regroup(before, pair_bytes(pair@), (*final(*w))@);
            }
        }
    }
    assert(views.take(map.len() as int) =~= views);
    let ghost all = pairs_bytes(retained(kind, views));
    write_byte(w, 0x00);
    proof {
        lemma_regroup(all, seq![0u8], (*final(*w))@);
    }
}

/// Reads a map from the front of `r` and writes what is left of it at the front of `w`.
fn scrub_map(kind: MapKind, r: &mut &[u8], w: &mut &mut [u8]) -> (result: Result<(), Error>)
    requires
        (*old(r))@.len() <= (**old(w))@.len(),
    ensures
        match read_map((*old(r))@) {
            None => result == Err::<(), Error>(Error::UnexpectedEof),
            Some((map, rest)) => {
                let written = map_bytes(retained(kind, map));
                &&& result is Ok
                &&& (*final(r))@ == rest
                &&& (**final(w))@ == (**old(w))@.skip(written.len() as int)
                &&& (*final(*old(w)))@ == written + (*final(*final(w)))@
            },
        },
{
    let ghost room = (**w)@;
    let ghost mut done: Seq<PairView> = Seq::empty();
    proof {
        lemma_retained_none(kind);
    }
    loop
        invariant
            room == (**old(w))@,
            match read_map((*r)@) {
                None => read_map((*old(r))@) is None,
                Some((pairs, behind)) => read_map((*old(r))@) == Some((done + pairs, behind)),
            },
            ({
                let written = pairs_bytes(retained(kind, done));
                &&& (**w)@ == room.skip(written.len() as int)
                &&& (*final(*old(w)))@ == written + (*final(*w))@
                &&& written.len() + (*r)@.len() <= room.len()
            }),
        decreases (*r)@.len(),
    {
        proof {
            lemma_read_pair((*r)@);
        }
        let ghost before = pairs_bytes(retained(kind, done));
        match Pair::decode(r) {
            Err(_) => return Err(Error::UnexpectedEof),
            Ok(None) => {
                write_byte(w, 0x00);
                proof {
                    assert(done + Seq::<PairView>::empty() =~= done);
                    lemma_regroup(before, seq![0u8], (*final(*w))@);
                }
                return Ok(());
            },
            Ok(Some(pair)) => {
                proof {
                    lemma_retained_push(kind, done, pair@);
                    if let Some((pairs, behind)) = read_map((*r)@) {
                        assert(done + (seq![pair@] + pairs) =~= (done + seq![pair@]) + pairs);
                    }
                    done = done + seq![pair@];
                }
                if kind.retains(pair.key.type_value) {
                    encode_pair(w, &pair);
                    proof {
                        lemma_regroup(before, pair_bytes(pair@), (*final(*w))@);
                    }
                }
            },
        }
    }
}

/// Reads `n` maps from the front of `r` and writes what is left of them at the front of `w`.
fn scrub_maps(kind: MapKind, n: u64, r: &mut &[u8], w: &mut &mut [u8]) -> (result: Result<
    (),
    Error,
>)
    requires
        (*old(r))@.len() <= (**old(w))@.len(),
    ensures
        match read_maps((*old(r))@, n as nat) {
            None => result == Err::<(), Error>(Error::UnexpectedEof),
            Some((maps, rest)) => {
                let written = maps_bytes(all_retained(kind, maps));
                &&& result is Ok
                &&& (*final(r))@ == rest
                &&& (**final(w))@ == (**old(w))@.skip(written.len() as int)
                &&& (*final(*old(w)))@ == written + (*final(*final(w)))@
                &&& written.len() + rest.len() <= (**old(w))@.len()
            },
        },
{
    let ghost room = (**w)@;
    let ghost mut done: Seq<Seq<PairView>> = Seq::empty();
    proof {
        lemma_retained_none(kind);
        if let Some((maps, behind)) = read_maps((*r)@, n as nat) {
            assert(done + maps =~= maps);
        }
    }
    for i in 0..n
        invariant
            room == (**old(w))@,
            match read_maps((*r)@, (n - i) as nat) {
                None => read_maps((*old(r))@, n as nat) is None,
                Some((maps, behind)) => read_maps((*old(r))@, n as nat) == Some(
                    (done + maps, behind),
                ),
            },
            ({
                let written = maps_bytes(all_retained(kind, done));
                &&& (**w)@ == room.skip(written.len() as int)
                &&& (*final(*old(w)))@ == written + (*final(*w))@
                &&& written.len() + (*r)@.len() <= room.len()
            }),
    {
        let ghost before = maps_bytes(all_retained(kind, done));
        let ghost input = (*r)@;
        proof {
            lemma_read_map(input);
        }
        match scrub_map(kind, r, w) {
            Err(error) => return Err(error),
            Ok(()) => {},
        }
        proof {
            let (map, _) = read_map(input)->0;
            let left = retained(kind, map);
            lemma_retained_shorter(kind, map);
            lemma_regroup(before, map_bytes(left), (*final(*w))@);
            assert(all_retained(kind, done + seq![map]) =~= all_retained(kind, done)
                + seq![left]);
            lemma_maps_bytes_add(all_retained(kind, done), seq![left]);
            lemma_maps_bytes_one(left);
            if let Some((maps, behind)) = read_maps((*r)@, (n - i - 1) as nat) {
                assert(done + (seq![map] + maps) =~= (done + seq![map]) + maps);
            }
            done = done + seq![map];
        }
    }
    proof {
        assert(done + Seq::<Seq<PairView>>::empty() =~= done);
    }
    Ok(())
}

/// Scrubs the PSBT whose global map is `global` and whose maps for `n_inputs` inputs and
/// `n_outputs` outputs stand at the front of `maps`. `capacity` is the size of the buffer to
/// write into, at least that of the whole PSBT.
pub fn scrub_body(
    capacity: usize,
    global: &[Pair],
    maps: &[u8],
    n_inputs: u64,
    n_outputs: u64,
) -> (result: Result<Vec<u8>, Error>)
    requires
        magic().len() + map_bytes(pair_views(global@)).len() + maps@.len() <= capacity,
    ensures
        match read_body(pair_views(global@), maps@, n_inputs, n_outputs) {
            Err(error) => result == Err::<Vec<u8>, Error>(error),
            Ok((psbt, _)) => result matches Ok(out) && out@ == psbt_bytes(stripped(psbt)),
        },
{
    let mut r: &[u8] = maps;
    let mut out: Vec<u8> = vec![0u8; capacity];
    let mut w: &mut [u8] = &mut out;
    let ghost views = pair_views(global@);
    proof {
        assert(MAGIC@ =~= magic());
        lemma_retained_shorter(MapKind::Global, views);
    }
    write_bytes(&mut w, &MAGIC);
    write_retained(MapKind::Global, global, &mut w);
    match scrub_maps(MapKind::Input, n_inputs, &mut r, &mut w) {
        Err(error) => return Err(error),
        Ok(()) => {},
    }
    match scrub_maps(MapKind::Output, n_outputs, &mut r, &mut w) {
        Err(error) => return Err(error),
        Ok(()) => {},
    }
    let written: usize = capacity - w.len();
    out.truncate(written);
    proof {
        let (psbt, _) = read_body(views, maps@, n_inputs, n_outputs)->Ok_0;
        assert(out@ =~= psbt_bytes(stripped(psbt)));
    }
    Ok(out)
}

/// Scrub a PSBT, retaining only non-sensitive fields safe to share with untrusted peers.
///
/// Buffers the global map to detect version and input/output counts, then streams the remaining
/// maps applying per-map-type filters. Both PSBT v0 and v2 are supported.
pub fn scrub(psbt: &[u8]) -> (result: Result<Vec<u8>, Error>)
    ensures
        match result {
            Ok(out) => scrubbed(psbt@) == Ok::<_, Error>(out@),
            Err(error) => scrubbed(psbt@) == Err::<Seq<u8>, _>(error),
        },
        result matches Err(Error::InvalidMagic) <==> !(psbt@.len() >= 5 && psbt@[0] == 0x70
            && psbt@[1] == 0x73 && psbt@[2] == 0x62 && psbt@[3] == 0x74 && psbt@[4] == 0xff),
{
    proof {
        law_scrub_outcome(psbt@);
    }
    if !starts_with_magic(psbt) {
        return Err(Error::InvalidMagic);
    }
    let mut r: &[u8] = &psbt[5..psbt.len()];
    proof {
        assert(r@ =~= psbt@.skip(5));
        lemma_read_map(r@);
    }
    let global = match decode_map(&mut r) {
        Err(error) => return Err(error),
        Ok(map) => map,
    };
    let (n_inputs, n_outputs) = match get_number_of_inputs_and_outputs(&global) {
        Err(error) => return Err(error),
        Ok(counts) => counts,
    };
    scrub_body(psbt.len(), &global, r, n_inputs, n_outputs)
}

} // verus!
