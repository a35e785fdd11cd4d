//! The key-value pairs of a PSBT map.

use vstd::prelude::*;

use crate::consensus::{
    decode_byte_vec, decode_u8, decode_var_int, max_vec_size, read_byte_vec, serialize_u8,
    serialize_var_int, vec_size_limit,
};
use crate::error::Error;
use crate::output::write_bytes;
use crate::wire::{
    compact_size, law_compact_size_read_then_written, law_compact_size_rest,
    law_compact_size_written_then_read, lemma_compact_size_len, read_compact_size,
};

verus! {

/// The key of a pair.
#[derive(Debug, PartialEq, Eq)]
pub struct Key {
    /// What kind of field this is.
    pub type_value: u8,
    /// The rest of the key.
    pub key: Vec<u8>,
}

/// A key-value pair in its raw byte form.
#[derive(Debug, PartialEq, Eq)]
pub struct Pair {
    /// The key of this pair.
    pub key: Key,
    /// The value of this pair.
    pub value: Vec<u8>,
}

/// What a pair holds.
#[verifier::ext_equal]
pub struct PairView {
    pub type_value: u8,
    pub key: Seq<u8>,
    pub value: Seq<u8>,
}

impl View for Pair {
    type V = PairView;

    open spec fn view(&self) -> PairView {
        PairView { type_value: self.key.type_value, key: self.key.key@, value: self.value@ }
    }
}

/// What each of `pairs` holds.
pub open spec fn pair_views(pairs: Seq<Pair>) -> Seq<PairView> {
    pairs.map_values(|pair: Pair| pair@)
}

/// A pair as it stands in a PSBT: the length of the key, its type included, then the key, then
/// the length of the value, then the value.
pub open spec fn pair_bytes(pair: PairView) -> Seq<u8> {
    compact_size((pair.key.len() + 1) as u64) + seq![pair.type_value] + pair.key + compact_size(
        pair.value.len() as u64,
    ) + pair.value
}

/// Reads a pair from the front of `s`: the pair, or `None` for the zero byte that ends a map, or
/// an error; and the bytes that are left unread.
pub open spec fn read_pair(s: Seq<u8>) -> (Result<Option<PairView>, Error>, Seq<u8>) {
    let (size, keyed) = read_compact_size(s);
    match size {
        None => (Err(Error::UnexpectedEof), keyed),
        Some(n) => if n == 0 {
            (Ok(None), keyed)
        } else if n - 1 > max_vec_size() {
            (Err(Error::UnexpectedEof), keyed)
        } else if keyed.len() < n {
            (Err(Error::UnexpectedEof), Seq::empty())
        } else {
            let (value, rest) = read_byte_vec(keyed.skip(n as int));
            match value {
                None => (Err(Error::UnexpectedEof), rest),
                Some(value) => (
                    Ok(
                        Some(
                            PairView {
                                type_value: keyed[0],
                                key: keyed.subrange(1, n as int),
                                value,
                            },
                        ),
                    ),
                    rest,
                ),
            }
        },
    }
}

/// Whether `pair` is small enough to be read: its key, and its value together with the value's
/// length.
pub open spec fn pair_fits(pair: PairView) -> bool {
    &&& pair.key.len() <= max_vec_size()
    &&& compact_size(pair.value.len() as u64).len() + pair.value.len() <= max_vec_size()
}

/// The bytes of `pair` with `len` in place of the length of its value.
pub open spec fn pair_bytes_declaring(pair: PairView, len: u64) -> Seq<u8> {
    compact_size((pair.key.len() + 1) as u64) + seq![pair.type_value] + pair.key + compact_size(len)
        + pair.value
}

/// The length that the pair at the front of `s` declares for its value.
pub open spec fn declared_value_len(s: Seq<u8>) -> Option<u64> {
    let (size, keyed) = read_compact_size(s);
    match size {
        None => None,
        Some(n) => if 0 < n <= keyed.len() {
            read_compact_size(keyed.skip(n as int)).0
        } else {
            None
        },
    }
}

/// Whether the length that the pair at the front of `s` declares for its value, if it declares
/// one, fits in a `usize`. A greater one is cut when the pair is read.
pub open spec fn value_len_uncut(s: Seq<u8>) -> bool {
    declared_value_len(s) matches Some(len) ==> len <= usize::MAX
}

impl Pair {
    /// Decodes a pair from the front of `input` and advances `input` past what it has read.
    /// Returns `None` at the end of a map.
    pub fn decode(input: &mut &[u8]) -> (result: Result<Option<Pair>, Error>)
        ensures
            read_pair((*old(input))@).0 == (match result {
                Ok(Some(pair)) => Ok(Some(pair@)),
                Ok(None) => Ok(None),
                Err(error) => Err(error),
            }),
            (*final(input))@ == read_pair((*old(input))@).1,
            result matches Ok(Some(pair)) ==> {
                let n = pair.key.key@.len() + 1;
                let at = compact_size(n as u64).len() as int;
                &&& (*old(input))@.take(at) == compact_size(n as u64)
                &&& (*old(input))@[at] == pair.key.type_value
                &&& (*old(input))@.subrange(at + 1, at + n) == pair.key.key@
            },
            result matches Ok(None) <==> (*old(input))@.len() > 0 && (*old(input))@[0] == 0,
            result matches Err(error) ==> error == Error::UnexpectedEof,
    {
        proof {
            law_pair_type_is_byte_behind_size((*input)@);
            law_map_end_byte((*input)@);
        }
        let byte_size = match decode_var_int(input) {
            Ok(n) => n,
            Err(_) => return Err(Error::UnexpectedEof),
        };
        if byte_size == 0 {
            return Ok(None);
        }
        let key_byte_size: u64 = byte_size - 1;
        if key_byte_size > vec_size_limit() as u64 {
            return Err(Error::UnexpectedEof);
        }
        let ghost keyed = (*input)@;
        let type_value = match decode_u8(input) {
            Ok(byte) => byte,
            Err(_) => {
                assert((*input)@ =~= Seq::<u8>::empty());
                return Err(Error::UnexpectedEof);
            },
        };
        let mut key: Vec<u8> = Vec::with_capacity(key_byte_size as usize);
        for i in 0..key_byte_size
            invariant
                i < keyed.len(),
                keyed == read_compact_size((*old(input))@).1,
                read_compact_size((*old(input))@).0 == Some((key_byte_size + 1) as u64),
                key_byte_size <= max_vec_size(),
                key@ == keyed.subrange(1, 1 + i),
                (*input)@ == keyed.skip(1 + i),
        {
            match decode_u8(input) {
                Ok(byte) => {
                    key.push(byte);
                },
                Err(_) => {
                    assert((*input)@ =~= Seq::<u8>::empty());
                    return Err(Error::UnexpectedEof);
                },
            }
        }
        let value = match decode_byte_vec(input) {
            Ok(bytes) => bytes,
            Err(_) => return Err(Error::UnexpectedEof),
        };
        Ok(Some(Pair { key: Key { type_value, key }, value }))
    }
}

/// Writes `pair` at the front of `out`, and leaves `out` with the room behind it.
pub fn encode_pair(out: &mut &mut [u8], pair: &Pair)
    requires
        pair_bytes(pair@).len() <= (**old(out))@.len(),
    ensures
        (**final(out))@ == (**old(out))@.skip(pair_bytes(pair@).len() as int),
        (*final(*old(out)))@ == pair_bytes(pair@) + (*final(*final(out)))@,
        (*final(*old(out)))@[compact_size((pair.key.key@.len() + 1) as u64).len() as int]
            == pair.key.type_value,
{
    assert(pair.key.key@.len() < (**out).len());
    write_bytes(out, &serialize_var_int((pair.key.key.len() + 1) as u64));
    write_bytes(out, &serialize_u8(pair.key.type_value));
    write_bytes(out, &pair.key.key);
    write_bytes(out, &serialize_var_int(pair.value.len() as u64));
    write_bytes(out, &pair.value);
}

proof fn lemma_read_byte_vec(s: Seq<u8>)
    ensures
        read_byte_vec(s).1.len() <= s.len(),
        read_byte_vec(s) matches (Some(bytes), rest) ==> {
            let size = compact_size(bytes.len() as u64).len();
            &&& size + bytes.len() <= max_vec_size()
            &&& size + bytes.len() + rest.len() <= s.len()
        },
{
    let window = s.take(
        if s.len() < max_vec_size() {
            s.len() as int
        } else {
            max_vec_size() as int
        },
    );
    law_compact_size_read_then_written(window);
    if let (Some(n), rest) = read_compact_size(window) {
        lemma_compact_size_len(n);
        lemma_compact_size_len((n as usize) as u64);
        assert((n as usize) <= n);
    }
}

proof fn lemma_read_byte_vec_extends(s: Seq<u8>, more: Seq<u8>)
    ensures
        read_byte_vec(s) matches (Some(bytes), rest) ==> read_byte_vec(s + more) == (
            Some(bytes),
            rest + more,
        ),
{
    if let (Some(bytes), rest) = read_byte_vec(s) {
        let limit = max_vec_size() as int;
        let window = s.take(if s.len() < limit { s.len() as int } else { limit });
        let whole = s + more;
        let whole_window = whole.take(if whole.len() < limit { whole.len() as int } else { limit });
        assert(whole_window =~= window + whole_window.skip(window.len() as int));
        law_compact_size_read_then_written(window);
        if let (Some(n), after) = read_compact_size(window) {
            let tail = after + whole_window.skip(window.len() as int);
            assert(whole_window =~= compact_size(n) + tail);
            law_compact_size_written_then_read(n, tail);
            let start = window.len() - after.len();
            let end = start + (n as usize);
            assert(whole.subrange(start, end) =~= bytes);
            assert(whole.skip(end) =~= rest + more);
        }
    }
}

proof fn lemma_byte_vec_written_then_read(bytes: Seq<u8>, rest: Seq<u8>)
    requires
        compact_size(bytes.len() as u64).len() + bytes.len() <= max_vec_size(),
    ensures
        read_byte_vec(compact_size(bytes.len() as u64) + bytes + rest) == (Some(bytes), rest),
{
    let n = bytes.len() as u64;
    let s = compact_size(n) + bytes;
    lemma_compact_size_len(n);
    assert(s.take(s.len() as int) =~= s);
    law_compact_size_written_then_read(n, bytes);
    assert(s.subrange(compact_size(n).len() as int, s.len() as int) =~= bytes);
    assert(s.skip(s.len() as int) =~= Seq::empty());
    lemma_read_byte_vec_extends(s, rest);
    assert(Seq::empty() + rest =~= rest);
}

/// The bytes that a byte vector was read from: the length that they declare, which is that of the
/// vector once it is cut down to a `usize`, and the vector.
proof fn lemma_byte_vec_read_from(s: Seq<u8>)
    ensures
        read_byte_vec(s) matches (Some(bytes), rest) ==> {
            &&& read_compact_size(s).0 matches Some(len)
            &&& bytes.len() == (len as usize)
            &&& s == compact_size(len) + bytes + rest
        },
{
    if let (Some(bytes), rest) = read_byte_vec(s) {
        let limit = max_vec_size() as int;
        let window = s.take(if s.len() < limit { s.len() as int } else { limit });
        law_compact_size_read_then_written(window);
        let len = read_compact_size(window).0->0;
        let start = compact_size(len).len() as int;
        let end = start + (len as usize);
        assert(s.take(start) =~= window.take(start));
        assert(window.take(start) =~= compact_size(len));
        assert(s =~= compact_size(len) + s.skip(start));
        law_compact_size_written_then_read(len, s.skip(start));
        assert(s =~= s.take(start) + s.subrange(start, end) + s.skip(end));
    }
}

/// Reading a pair, or the end of a map, uses up bytes; a pair uses up at least as many as
/// writing it takes, and fits.
pub proof fn lemma_read_pair(s: Seq<u8>)
    ensures
        read_pair(s).0 is Ok ==> read_pair(s).1.len() < s.len(),
        read_pair(s) matches (Ok(Some(pair)), rest) ==> {
            &&& pair_fits(pair)
            &&& pair_bytes(pair).len() + rest.len() <= s.len()
        },
{
    law_compact_size_read_then_written(s);
    if let (Some(n), keyed) = read_compact_size(s) {
        lemma_compact_size_len(n);
        if 0 < n <= keyed.len() {
            lemma_read_byte_vec(keyed.skip(n as int));
        }
    }
}

/// A pair, or the end of a map, is read the same whatever follows it.
pub proof fn lemma_read_pair_extends(s: Seq<u8>, more: Seq<u8>)
    ensures
        read_pair(s) matches (Ok(pair), rest) ==> read_pair(s + more) == (
            Ok::<_, Error>(pair),
            rest + more,
        ),
{
    law_compact_size_read_then_written(s);
    if let (Some(n), keyed) = read_compact_size(s) {
        law_compact_size_written_then_read(n, keyed + more);
        assert(s + more =~= compact_size(n) + (keyed + more));
        if 0 < n <= keyed.len() {
            lemma_read_byte_vec_extends(keyed.skip(n as int), more);
            assert((keyed + more).skip(n as int) =~= keyed.skip(n as int) + more);
            assert((keyed + more).subrange(1, n as int) =~= keyed.subrange(1, n as int));
        }
    }
}

/// Law: a pair that was written is read back, and what follows it stays unread.
pub proof fn law_pair_written_then_read(pair: PairView, rest: Seq<u8>)
    requires
        pair_fits(pair),
    ensures
        read_pair(pair_bytes(pair) + rest) == (Ok::<_, Error>(Some(pair)), rest),
{
    let n = (pair.key.len() + 1) as u64;
    let valued = compact_size(pair.value.len() as u64) + pair.value + rest;
    let keyed = seq![pair.type_value] + pair.key + valued;
    assert(pair_bytes(pair) + rest =~= compact_size(n) + keyed);
    law_compact_size_written_then_read(n, keyed);
    assert(keyed.skip(n as int) =~= valued);
    assert(keyed.subrange(1, n as int) =~= pair.key);
    lemma_byte_vec_written_then_read(pair.value, rest);
}

/// Law: the bytes that a pair was read from are those of the pair with the length that they
/// declare for the value. The value has that length, cut down to what a `usize` holds.
pub proof fn law_pair_read_from(s: Seq<u8>)
    ensures
        read_pair(s) matches (Ok(Some(pair)), rest) ==> {
            &&& declared_value_len(s) matches Some(len)
            &&& pair.value.len() == (len as usize)
            &&& s == pair_bytes_declaring(pair, len) + rest
        },
{
    if let (Ok(Some(pair)), rest) = read_pair(s) {
        law_compact_size_read_then_written(s);
        let n = read_compact_size(s).0->0;
        let keyed = read_compact_size(s).1;
        let valued = keyed.skip(n as int);
        lemma_byte_vec_read_from(valued);
        let len = read_compact_size(valued).0->0;
        assert(keyed =~= seq![pair.type_value] + pair.key + valued);
        assert(s =~= pair_bytes_declaring(pair, len) + rest);
    }
}

/// Law: what a pair holds is what its fields hold.
pub proof fn law_pair_view(pair: Pair)
    ensures
        pair@.type_value == pair.key.type_value,
        pair@.key == pair.key.key@,
        pair@.value == pair.value@,
{
}

/// Law: pairs hold, each at its place, what their fields hold.
pub proof fn law_pair_views(pairs: Seq<Pair>)
    ensures
        pair_views(pairs).len() == pairs.len(),
        forall|i: int|
            0 <= i < pairs.len() ==> {
                &&& (#[trigger] pair_views(pairs)[i]).type_value == pairs[i].key.type_value
                &&& pair_views(pairs)[i].key == pairs[i].key.key@
                &&& pair_views(pairs)[i].value == pairs[i].value@
            },
{
}

/// Law: a pair is written as the length of its key, one more for the type, then the type's own
/// byte, the rest of the key, the length of the value, and the value.
pub proof fn law_pair_written_layout(pair: PairView)
    ensures
        pair_bytes(pair) == compact_size((pair.key.len() + 1) as u64) + seq![pair.type_value]
            + pair.key + compact_size(pair.value.len() as u64) + pair.value,
        pair_bytes(pair)[compact_size((pair.key.len() + 1) as u64).len() as int]
            == pair.type_value,
{
}

/// Law: every key of up to 4,000,000 bytes behind its type, with every value that takes up no
/// more than 4,000,000 bytes with its length, is read as it stands, and what follows stays
/// unread. `len` is the length that is declared for the value.
pub proof fn law_pair_layout_read(
    type_value: u8,
    key: Seq<u8>,
    len: u64,
    value: Seq<u8>,
    rest: Seq<u8>,
)
    requires
        key.len() <= 4_000_000,
        value.len() == (len as usize),
        compact_size(len).len() + value.len() <= 4_000_000,
    ensures
        read_pair(
            compact_size((key.len() + 1) as u64) + seq![type_value] + key + compact_size(len)
                + value + rest,
        ) == (Ok::<_, Error>(Some((PairView { type_value, key, value }))), rest),
{
    let n = (key.len() + 1) as u64;
    let valued = compact_size(len) + value + rest;
    let keyed = seq![type_value] + key + valued;
    assert(compact_size(n) + seq![type_value] + key + compact_size(len) + value + rest
        =~= compact_size(n) + keyed);
    law_compact_size_written_then_read(n, keyed);
    assert(keyed.skip(n as int) =~= valued);
    assert(keyed.subrange(1, n as int) =~= key);
    lemma_declared_byte_vec_read(len, value, rest);
}

proof fn lemma_declared_byte_vec_read(len: u64, bytes: Seq<u8>, rest: Seq<u8>)
    requires
        bytes.len() == (len as usize),
        compact_size(len).len() + bytes.len() <= max_vec_size(),
    ensures
        read_byte_vec(compact_size(len) + bytes + rest) == (Some(bytes), rest),
{
    let s = compact_size(len) + bytes;
    assert(s.take(s.len() as int) =~= s);
    law_compact_size_written_then_read(len, bytes);
    assert(s.subrange(compact_size(len).len() as int, s.len() as int) =~= bytes);
    assert(s.skip(s.len() as int) =~= Seq::empty());
    lemma_read_byte_vec_extends(s, rest);
    assert(Seq::empty() + rest =~= rest);
}

/// Law: where a pair is read, the bytes are the length of its key and type, the type's byte, the
/// key, a length and the value, within 4,000,000 bytes for the key and for the value with its
/// length. The value is as long as declared, as far as a `usize` holds that length.
pub proof fn law_pair_layout(s: Seq<u8>)
    ensures
        read_pair(s) matches (Ok(Some(pair)), rest) ==> pair.key.len() <= 4_000_000 && exists|
            len: u64,
        |
            pair.value.len() == (len as usize) && #[trigger] compact_size(len).len()
                + pair.value.len() <= 4_000_000 && s == compact_size((pair.key.len() + 1) as u64)
                + seq![pair.type_value] + pair.key + compact_size(len) + pair.value + rest,
{
    if let (Ok(Some(pair)), rest) = read_pair(s) {
        law_compact_size_read_then_written(s);
        let n = read_compact_size(s).0->0;
        let keyed = read_compact_size(s).1;
        let valued = keyed.skip(n as int);
        lemma_byte_vec_read_from(valued);
        let len = read_compact_size(valued).0->0;
        lemma_byte_vec_window(valued);
        assert(keyed =~= seq![pair.type_value] + pair.key + valued);
        lemma_flat(
            compact_size(n),
            seq![pair.type_value],
            pair.key,
            compact_size(len),
            pair.value,
            rest,
        );
        assert(compact_size(len).len() + pair.value.len() <= 4_000_000);
    }
}

/// Six parts, grouped from the right, are those parts one behind the other.
proof fn lemma_flat(
    a: Seq<u8>,
    b: Seq<u8>,
    c: Seq<u8>,
    d: Seq<u8>,
    e: Seq<u8>,
    f: Seq<u8>,
)
    ensures
        a + (b + c + (d + e + f)) == a + b + c + d + e + f,
{
    assert(a + (b + c + (d + e + f)) =~= a + b + c + d + e + f);
}

proof fn lemma_byte_vec_window(s: Seq<u8>)
    ensures
        read_byte_vec(s) matches (Some(bytes), rest) ==> s.len() - rest.len() <= max_vec_size(),
{
}

/// Law: the type of a pair that is read is the very byte behind the leading compact size, which
/// is that of the key with its type, and the rest of the key follows it.
pub proof fn law_pair_type_is_byte_behind_size(s: Seq<u8>)
    ensures
        read_pair(s) matches (Ok(Some(pair)), _) ==> {
            let n = pair.key.len() + 1;
            let at = compact_size(n as u64).len() as int;
            &&& at + n <= s.len()
            &&& s.take(at) == compact_size(n as u64)
            &&& s[at] == pair.type_value
            &&& s.subrange(at + 1, at + n) == pair.key
        },
{
    law_pair_layout(s);
    if let (Ok(Some(pair)), rest) = read_pair(s) {
        let n = pair.key.len() + 1;
        let at = compact_size(n as u64).len() as int;
        assert(s.take(at) =~= compact_size(n as u64));
        assert(s.subrange(at + 1, at + n) =~= pair.key);
    }
}

/// Law: a map ends exactly where a zero byte stands for the length of a key, and that one byte is
/// what is read. What is neither this nor a pair is refused, always for the same reason.
pub proof fn law_map_end_byte(s: Seq<u8>)
    ensures
        read_pair(s).0 matches Ok(None) <==> s.len() > 0 && s[0] == 0,
        s.len() > 0 && s[0] == 0 ==> read_pair(s).1 == s.skip(1),
        read_pair(s).0 matches Err(error) ==> error == Error::UnexpectedEof,
{
    law_compact_size_read_then_written(s);
}

/// Law: a key of more than 4,000,000 bytes behind its type is refused before any of it is read, one
/// that is cut short once all is read, and so are bytes that start with no compact size.
pub proof fn law_pair_key_refused(n: u64, tail: Seq<u8>)
    ensures
        n > 4_000_001 ==> read_pair(compact_size(n) + tail) == (
            Err::<Option<PairView>, _>(Error::UnexpectedEof),
            tail,
        ),
        tail.len() < n <= 4_000_001 ==> read_pair(compact_size(n) + tail) == (
            Err::<Option<PairView>, _>(Error::UnexpectedEof),
            Seq::<u8>::empty(),
        ),
        read_compact_size(tail).0 is None ==> read_pair(tail) == (
            Err::<Option<PairView>, _>(Error::UnexpectedEof),
            read_compact_size(tail).1,
        ),
{
    law_compact_size_written_then_read(n, tail);
}

/// Law: a value is refused that is longer than what follows its length or, with its length, than
/// 4,000,000 bytes; so many bytes of it have then been read.
pub proof fn law_pair_value_refused(
    type_value: u8,
    key: Seq<u8>,
    len: u64,
    tail: Seq<u8>,
)
    requires
        key.len() <= 4_000_000,
        compact_size(len).len() + (len as usize) > 4_000_000 || (len as usize) > tail.len(),
    ensures
        read_pair(
            compact_size((key.len() + 1) as u64) + seq![type_value] + key + (compact_size(len)
                + tail),
        ) == (
            Err::<Option<PairView>, _>(Error::UnexpectedEof),
            if compact_size(len).len() + tail.len() <= 4_000_000 {
                Seq::<u8>::empty()
            } else {
                (compact_size(len) + tail).skip(4_000_000)
            },
        ),
{
    let n = (key.len() + 1) as u64;
    let valued = compact_size(len) + tail;
    let keyed = seq![type_value] + key + valued;
    assert(compact_size(n) + seq![type_value] + key + valued =~= compact_size(n) + keyed);
    law_compact_size_written_then_read(n, keyed);
    assert(keyed.skip(n as int) =~= valued);
    let limit = max_vec_size() as int;
    let window = valued.take(if valued.len() < limit { valued.len() as int } else { limit });
    lemma_compact_size_len(len);
    let start = compact_size(len).len() as int;
    assert(window =~= compact_size(len) + window.skip(start));
    law_compact_size_written_then_read(len, window.skip(start));
    assert(valued.skip(valued.len() as int) =~= Seq::empty());
}

/// Law: what is left unread is always the end of what was there.
pub proof fn law_pair_rest(s: Seq<u8>)
    ensures
        read_pair(s).1.len() <= s.len(),
        read_pair(s).1 == s.skip(s.len() - read_pair(s).1.len()),
{
    law_compact_size_rest(s);
    let (size, keyed) = read_compact_size(s);
    assert(s.skip(s.len() as int) =~= Seq::empty());
    if let Some(n) = size {
        if 0 < n <= keyed.len() && n - 1 <= max_vec_size() {
            let valued = keyed.skip(n as int);
            let limit = max_vec_size() as int;
            law_compact_size_rest(
                valued.take(if valued.len() < limit { valued.len() as int } else { limit }),
            );
            let rest = read_byte_vec(valued).1;
            assert(rest =~= s.skip(s.len() - rest.len()));
        }
    }
}

/// Law: where the length that a pair declares for its value fits in a `usize`, the bytes that the
/// pair was read from are those that writing it gives.
pub proof fn law_pair_read_then_written(s: Seq<u8>)
    requires
        value_len_uncut(s),
    ensures
        read_pair(s) matches (Ok(Some(pair)), rest) ==> s == pair_bytes(pair) + rest,
{
    law_pair_read_from(s);
}

/// Law: the zero byte that ends a map is read as such.
pub proof fn law_map_end_read(rest: Seq<u8>)
    ensures
        read_pair(seq![0u8] + rest) == (Ok::<Option<PairView>, Error>(None), rest),
{
    assert((seq![0u8] + rest).skip(1) =~= rest);
}

/// Law: nothing but a zero byte is read as the end of a map.
pub proof fn law_map_end_written(s: Seq<u8>)
    ensures
        read_pair(s) matches (Ok(None), rest) ==> s == seq![0u8] + rest,
{
    law_compact_size_read_then_written(s);
}

} // verus!
