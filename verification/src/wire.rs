//! Bitcoin's variable-length integers ("compact sizes") and little-endian numbers, as byte
//! sequences.

use vstd::prelude::*;

verus! {

/// The number that `bytes` stands for, least significant byte first.
pub open spec fn le_value(bytes: Seq<u8>) -> nat
    decreases bytes.len(),
{
    if bytes.len() == 0 {
        0
    } else {
        bytes[0] as nat + 256 * le_value(bytes.skip(1))
    }
}

/// The lowest `width` bytes of `n`, least significant byte first.
pub open spec fn le_bytes(n: nat, width: nat) -> Seq<u8>
    decreases width,
{
    if width == 0 {
        Seq::empty()
    } else {
        seq![(n % 256) as u8] + le_bytes(n / 256, (width - 1) as nat)
    }
}

/// The only encoding of `n` that is accepted: the shortest one.
pub open spec fn compact_size(n: u64) -> Seq<u8> {
    if n < 0xFD {
        seq![n as u8]
    } else if n < 0x1_0000 {
        seq![0xFDu8] + le_bytes(n as nat, 2)
    } else if n < 0x1_0000_0000 {
        seq![0xFEu8] + le_bytes(n as nat, 4)
    } else {
        seq![0xFFu8] + le_bytes(n as nat, 8)
    }
}

/// How many bytes of number follow the first byte of a compact size.
pub open spec fn payload_width(first: u8) -> nat {
    if first == 0xFD {
        2
    } else if first == 0xFE {
        4
    } else if first == 0xFF {
        8
    } else {
        0
    }
}

/// The least number that has to be written with the first byte `first`; smaller ones have a
/// shorter encoding.
pub open spec fn least_payload(first: u8) -> nat {
    if first == 0xFD {
        0xFD
    } else if first == 0xFE {
        0x1_0000
    } else {
        0x1_0000_0000
    }
}

/// Reads a compact size from the front of `s`: the number, if a shortest encoding of one stands
/// there, and the bytes that are left unread. Where `s` ends too early, all of it has been read;
/// where the encoding is not the shortest one, all of the encoding has been.
pub open spec fn read_compact_size(s: Seq<u8>) -> (Option<u64>, Seq<u8>) {
    if s.len() == 0 {
        (None, s)
    } else if s[0] < 0xFD {
        (Some(s[0] as u64), s.skip(1))
    } else if s.len() < 1 + payload_width(s[0]) {
        (None, Seq::empty())
    } else {
        let end = 1 + payload_width(s[0]);
        let n = le_value(s.subrange(1, end as int));
        (if n < least_payload(s[0]) { None } else { Some(n as u64) }, s.skip(end as int))
    }
}

/// The number whose compact size `s` is, if there is one.
pub open spec fn exact_compact_size(s: Seq<u8>) -> Option<u64> {
    let (n, rest) = read_compact_size(s);
    if rest.len() == 0 { n } else { None }
}

proof fn lemma_le_bytes_len(n: nat, width: nat)
    ensures
        le_bytes(n, width).len() == width,
    decreases width,
{
    if width > 0 {
        lemma_le_bytes_len(n / 256, (width - 1) as nat);
    }
}

/// 256 to the power `width`.
spec fn pow256(width: nat) -> nat
    decreases width,
{
    if width == 0 { 1 } else { 256 * pow256((width - 1) as nat) }
}

proof fn lemma_pow256()
    ensures
        pow256(2) == 0x1_0000,
        pow256(4) == 0x1_0000_0000,
        pow256(8) == 0x1_0000_0000_0000_0000,
{
    reveal_with_fuel(pow256, 9);
}

proof fn lemma_le_value_of_bytes(n: nat, width: nat)
    requires
        n < pow256(width),
    ensures
        le_value(le_bytes(n, width)) == n,
    decreases width,
{
    if width > 0 {
        let tail = le_bytes(n / 256, (width - 1) as nat);
        lemma_le_value_of_bytes(n / 256, (width - 1) as nat);
        assert(le_bytes(n, width).skip(1) =~= tail);
    }
}

proof fn lemma_le_bytes_of_value(s: Seq<u8>)
    ensures
        le_value(s) < pow256(s.len()),
        le_bytes(le_value(s), s.len()) == s,
    decreases s.len(),
{
    if s.len() > 0 {
        let tail = s.skip(1);
        lemma_le_bytes_of_value(tail);
        assert(le_value(s) % 256 == s[0]);
        assert(le_value(s) / 256 == le_value(tail));
        assert(seq![s[0]] + tail =~= s);
    } else {
        assert(le_bytes(le_value(s), 0) =~= s);
    }
}

/// A compact size is 1, 3, 5 or 9 bytes long, the longer the larger the number.
pub proof fn lemma_compact_size_len(n: u64)
    ensures
        compact_size(n).len() == (if n < 0xFD {
            1int
        } else if n < 0x1_0000 {
            3
        } else if n < 0x1_0000_0000 {
            5
        } else {
            9
        }),
{
    lemma_le_bytes_len(n as nat, 2);
    lemma_le_bytes_len(n as nat, 4);
    lemma_le_bytes_len(n as nat, 8);
}

/// Law: the bytes of a compact size. A number below 253 is its own byte. A larger one is written
/// least significant byte first, in two bytes behind 253, four behind 254 or eight behind 255.
pub proof fn law_compact_size_bytes(n: u64)
    ensures
        n < 253 ==> compact_size(n) == seq![n as u8],
        253 <= n < 65536 ==> compact_size(n) == seq![253u8, (n % 256) as u8, (n / 256) as u8],
        65536 <= n < 4294967296 ==> compact_size(n) == seq![
            254u8,
            (n % 256) as u8,
            (n / 256 % 256) as u8,
            (n / 65536 % 256) as u8,
            (n / 16777216) as u8,
        ],
        4294967296 <= n ==> compact_size(n) == seq![
            255u8,
            (n % 256) as u8,
            (n / 256 % 256) as u8,
            (n / 65536 % 256) as u8,
            (n / 16777216 % 256) as u8,
            (n / 4294967296 % 256) as u8,
            (n / 1099511627776 % 256) as u8,
            (n / 281474976710656 % 256) as u8,
            (n / 72057594037927936) as u8,
        ],
{
    reveal_with_fuel(le_bytes, 9);
    let m = n as nat;
    assert(m / 256 / 256 == m / 65536);
    assert(m / 65536 / 256 == m / 16777216);
    assert(m / 16777216 / 256 == m / 4294967296);
    assert(m / 4294967296 / 256 == m / 1099511627776);
    assert(m / 1099511627776 / 256 == m / 281474976710656);
    assert(m / 281474976710656 / 256 == m / 72057594037927936);
    if n < 253 {
    } else if n < 65536 {
        assert(compact_size(n) =~= seq![253u8, (n % 256) as u8, (n / 256) as u8]);
    } else if n < 4294967296 {
        assert(compact_size(n) =~= seq![
            254u8,
            (n % 256) as u8,
            (n / 256 % 256) as u8,
            (n / 65536 % 256) as u8,
            (n / 16777216) as u8,
        ]);
    } else {
        assert(compact_size(n) =~= seq![
            255u8,
            (n % 256) as u8,
            (n / 256 % 256) as u8,
            (n / 65536 % 256) as u8,
            (n / 16777216 % 256) as u8,
            (n / 4294967296 % 256) as u8,
            (n / 1099511627776 % 256) as u8,
            (n / 281474976710656 % 256) as u8,
            (n / 72057594037927936) as u8,
        ]);
    }
}

/// Law: what is left unread is always the end of what was there; where no number is read it is
/// nothing, but behind an encoding that is longer than need be.
pub proof fn law_compact_size_rest(s: Seq<u8>)
    ensures
        read_compact_size(s).1.len() <= s.len(),
        read_compact_size(s).1 == s.skip(s.len() - read_compact_size(s).1.len()),
        read_compact_size(s) matches (None, rest) ==> rest.len() == 0 || (s[0] == 253 && rest
            == s.skip(3)) || (s[0] == 254 && rest == s.skip(5)) || (s[0] == 255 && rest == s.skip(
            9,
        )),
{
    assert(s.skip(0) =~= s);
    assert(s.skip(s.len() as int) =~= Seq::empty());
}

/// Law: a number that was written is read back, and what follows it stays unread.
pub proof fn law_compact_size_written_then_read(n: u64, rest: Seq<u8>)
    ensures
        read_compact_size(compact_size(n) + rest) == (Some(n), rest),
{
    let s = compact_size(n) + rest;
    lemma_compact_size_len(n);
    lemma_pow256();
    if n < 0xFD {
        assert(s.skip(1) =~= rest);
    } else {
        let width = payload_width(s[0]);
        lemma_le_bytes_len(n as nat, width);
        lemma_le_value_of_bytes(n as nat, width);
        assert(s.subrange(1, (1 + width) as int) =~= le_bytes(n as nat, width));
        assert(s.skip((1 + width) as int) =~= rest);
    }
}

/// Law: where a number is read, what was read is its one encoding.
pub proof fn law_compact_size_read_then_written(s: Seq<u8>)
    ensures
        read_compact_size(s) matches (Some(n), rest) ==> s == compact_size(n) + rest,
{
    if let (Some(n), rest) = read_compact_size(s) {
        lemma_pow256();
        if s[0] < 0xFD {
            assert(s =~= compact_size(n) + rest);
        } else {
            let width = payload_width(s[0]);
            let payload = s.subrange(1, (1 + width) as int);
            lemma_le_bytes_of_value(payload);
            assert(s =~= seq![s[0]] + payload + rest);
            assert(compact_size(n) =~= seq![s[0]] + payload);
        }
    }
}

/// Law: a byte sequence is the compact size of `n` exactly where `n` is read from it whole.
pub proof fn law_exact_compact_size(s: Seq<u8>, n: u64)
    ensures
        exact_compact_size(s) == Some(n) <==> s == compact_size(n),
{
    if exact_compact_size(s) == Some(n) {
        law_compact_size_read_then_written(s);
        assert(s =~= compact_size(n));
    }
    if s == compact_size(n) {
        law_compact_size_written_then_read(n, Seq::empty());
        assert(s + Seq::<u8>::empty() =~= s);
    }
}

} // verus!
