//! Writing into a buffer of fixed size.

use vstd::prelude::*;

verus! {

/// Writes `bytes` at the front of `out`, and leaves `out` with the room behind them.
pub fn write_bytes(out: &mut &mut [u8], bytes: &[u8])
    requires
        bytes@.len() <= (**old(out))@.len(),
    ensures
        (**final(out))@ == (**old(out))@.skip(bytes@.len() as int),
        (*final(*old(out)))@ == bytes@ + (*final(*final(out)))@,
{
    let mut buf: &mut [u8] = &mut [];
    std::mem::swap(out, &mut buf);
    let (head, tail) = buf.split_at_mut(bytes.len());
    for i in 0..bytes.len()
        invariant
            head@.len() == bytes@.len(),
            forall|j: int| 0 <= j < i ==> head@[j] == bytes@[j],
    {
        head[i] = bytes[i];
    }
    *out = tail;
}

/// Writes `byte` at the front of `out`, and leaves `out` with the room behind it.
pub fn write_byte(out: &mut &mut [u8], byte: u8)
    requires
        1 <= (**old(out))@.len(),
    ensures
        (**final(out))@ == (**old(out))@.skip(1),
        (*final(*old(out)))@ == seq![byte] + (*final(*final(out)))@,
{
    write_bytes(out, &[byte]);
}

} // verus!
