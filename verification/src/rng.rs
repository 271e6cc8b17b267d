use vstd::prelude::*;

verus! {

/// A 64-bit random value from two 32-bit ones: the first is the high half.
pub fn combine_words(high: u32, low: u32) -> (value: u64)
    ensures
        value == high as int * 0x1_0000_0000 + low as int,
{
    let v: u64 = ((high as u64) << 32u64) | (low as u64);
    assert(v == high as u64 * 0x1_0000_0000u64 + low as u64) by (bit_vector)
        requires
            v == ((high as u64) << 32u64) | (low as u64),
    ;
    v
}

/// Fills `dest` with the low byte of each random word, in order.
pub fn fill_bytes_from(dest: &mut [u8], words: &[u32])
    requires
        words@.len() == old(dest)@.len(),
    ensures
        final(dest)@.len() == old(dest)@.len(),
        forall|i: int| 0 <= i < words@.len() ==> #[trigger] final(dest)@[i] == words@[i] % 256,
{
    let mut i: usize = 0;
    while i < dest.len()
        invariant
            words@.len() == dest@.len(),
            dest@.len() == old(dest)@.len(),
            i <= dest@.len(),
            forall|j: int| 0 <= j < i ==> #[trigger] dest@[j] == words@[j] % 256,
        decreases dest@.len() - i,
    {
        let w = words[i];
        let b: u8 = (w & 0xff) as u8;
        assert(b == w % 256) by (bit_vector)
            requires
                b == (w & 0xff) as u8,
        ;
        dest[i] = b;
        i = i + 1;
    }
}

} // verus!
