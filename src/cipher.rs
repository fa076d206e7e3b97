//! The keyed obfuscation of stored names: each byte combined with the key's
//! bytes in turn, so that applying it twice with the same key restores the
//! input.
use vstd::prelude::*;

verus! {

/// `data` with each byte exclusive-or'ed with the key's byte at the same
/// position modulo the key's length; an empty key leaves `data` unchanged.
pub open spec fn keyed(data: Seq<u8>, key: Seq<u8>) -> Seq<u8> {
    Seq::new(
        data.len(),
        |i: int|
            if key.len() == 0 {
                data[i]
            } else {
                data[i] ^ key[i % key.len() as int]
            },
    )
}

/// Applying the keyed combination twice with one key gives back the data.
pub proof fn lemma_keyed_round_trip(data: Seq<u8>, key: Seq<u8>)
    ensures
        keyed(keyed(data, key), key) == data,
{
    let once = keyed(data, key);
    assert forall|i: int| 0 <= i < data.len() implies #[trigger] keyed(once, key)[i] == data[i] by {
        if key.len() > 0 {
            let x = data[i];
            let k = key[i % key.len() as int];
            assert((x ^ k) ^ k == x) by (bit_vector);
        }
    }
    assert(keyed(once, key) =~= data);
}

/// Combines `data` with `key`; see `keyed`.
pub fn keystream(data: &Vec<u8>, key: &Vec<u8>) -> (r: Vec<u8>)
    ensures
        r@ == keyed(data@, key@),
{
    let mut r: Vec<u8> = Vec::new();
    let mut i: usize = 0;
    while i < data.len()
        invariant
            i <= data@.len(),
            r@.len() == i,
            forall|m: int| 0 <= m < i ==> #[trigger] r@[m] == keyed(data@, key@)[m],
        decreases data@.len() - i,
    {
        if key.len() == 0 {
            r.push(data[i]);
        } else {
            r.push(data[i] ^ key[i % key.len()]);
        }
        i = i + 1;
    }
    assert(r@ =~= keyed(data@, key@));
    r
}

} // verus!
