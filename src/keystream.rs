use vstd::prelude::*;

verus! {

/// The identity table `0, 1, ..., 255`.
pub open spec fn identity_box() -> Seq<usize> {
    Seq::new(256, |i: int| i as usize)
}

/// The key-scheduling state after the first `n` rounds: the table and the
/// index chosen by the last swap.
pub open spec fn key_schedule(key: Seq<u8>, n: nat) -> (Seq<usize>, usize)
    decreases n,
{
    if n == 0 {
        (identity_box(), 0usize)
    } else {
        let prev = key_schedule(key, (n - 1) as nat);
        let t = prev.0;
        let i = n - 1;
        let c = ((t[i] + prev.1 + key[i % (key.len() as int)]) % 256) as usize;
        (t.update(i, t[c as int]).update(c as int, t[i]), c)
    }
}

/// The key box of `key`: the table after all 256 rounds.
pub open spec fn key_box_of(key: Seq<u8>) -> Seq<usize> {
    key_schedule(key, 256).0
}

/// A table of 256 distinct entries, each below 256.
pub open spec fn is_byte_permutation(t: Seq<usize>) -> bool {
    &&& t.len() == 256
    &&& forall|i: int| 0 <= i < 256 ==> #[trigger] t[i] < 256
    &&& forall|i: int, j: int| 0 <= i < 256 && 0 <= j < 256 && i != j ==> t[i] != t[j]
}

proof fn lemma_swap_keeps_permutation(t: Seq<usize>, i: int, c: int)
    requires
        is_byte_permutation(t),
        0 <= i < 256,
        0 <= c < 256,
    ensures
        is_byte_permutation(t.update(i, t[c]).update(c, t[i])),
{
    let s = t.update(i, t[c]).update(c, t[i]);
    assert forall|a: int, b: int| 0 <= a < 256 && 0 <= b < 256 && a != b implies s[a] != s[b] by {
        let pa = if a == c { i } else if a == i { c } else { a };
        let pb = if b == c { i } else if b == i { c } else { b };
        assert(s[a] == t[pa]);
        assert(s[b] == t[pb]);
    }
}

/// Every intermediate table of the key schedule is a permutation of `0..256`.
pub proof fn lemma_key_schedule_permutation(key: Seq<u8>, n: nat)
    requires
        key.len() > 0,
        n <= 256,
    ensures
        is_byte_permutation(key_schedule(key, n).0),
        key_schedule(key, n).1 < 256,
    decreases n,
{
    if n > 0 {
        lemma_key_schedule_permutation(key, (n - 1) as nat);
        let prev = key_schedule(key, (n - 1) as nat);
        let i = n - 1;
        let c = ((prev.0[i] + prev.1 + key[i % (key.len() as int)]) % 256) as usize;
        lemma_swap_keeps_permutation(prev.0, i, c as int);
    } else {
        assert(is_byte_permutation(identity_box()));
    }
}

/// The key box is a permutation of `0..256` and depends on the key bytes alone:
/// equal keys give equal tables.
pub proof fn lemma_key_box_deterministic(a: Seq<u8>, b: Seq<u8>)
    requires
        a.len() > 0,
        a == b,
    ensures
        key_box_of(a) == key_box_of(b),
        is_byte_permutation(key_box_of(a)),
{
    lemma_key_schedule_permutation(a, 256);
}

/// The keystream byte for logical offset `offset` of the audio region.
pub open spec fn ncm_key_byte(kbox: Seq<usize>, offset: int) -> u8 {
    let j = (offset + 1) % 256;
    let k = (kbox[j] + kbox[(kbox[j] + j) % 256]) % 256;
    kbox[k] as u8
}

/// `data`, which starts at logical offset `offset`, XORed with the keystream.
pub open spec fn ncm_transform(kbox: Seq<usize>, offset: int, data: Seq<u8>) -> Seq<u8> {
    Seq::new(data.len(), |i: int| data[i] ^ ncm_key_byte(kbox, offset + i))
}

/// Applying the transform twice at the same offsets gives back the input.
pub proof fn lemma_transform_involutive(kbox: Seq<usize>, offset: int, data: Seq<u8>)
    ensures
        ncm_transform(kbox, offset, ncm_transform(kbox, offset, data)) == data,
{
    let once = ncm_transform(kbox, offset, data);
    let twice = ncm_transform(kbox, offset, once);
    assert forall|i: int| 0 <= i < data.len() implies twice[i] == data[i] by {
        let x = data[i];
        let k = ncm_key_byte(kbox, offset + i);
        assert((x ^ k) ^ k == x) by (bit_vector);
    }
    assert(twice =~= data);
}

/// The transform of a concatenation is the concatenation of the transforms,
/// the second part taken at its own offset.
pub proof fn lemma_transform_split(kbox: Seq<usize>, offset: int, a: Seq<u8>, b: Seq<u8>)
    ensures
        ncm_transform(kbox, offset, a + b) == ncm_transform(kbox, offset, a) + ncm_transform(
            kbox,
            offset + a.len(),
            b,
        ),
{
    assert(ncm_transform(kbox, offset, a + b) =~= ncm_transform(kbox, offset, a) + ncm_transform(
        kbox,
        offset + a.len(),
        b,
    ));
}

/// A part of the transform is the transform of that part.
pub proof fn lemma_transform_subrange(kbox: Seq<usize>, offset: int, data: Seq<u8>, lo: int, hi: int)
    requires
        0 <= lo <= hi <= data.len(),
    ensures
        ncm_transform(kbox, offset, data).subrange(lo, hi) == ncm_transform(
            kbox,
            offset + lo,
            data.subrange(lo, hi),
        ),
{
    assert(ncm_transform(kbox, offset, data).subrange(lo, hi) =~= ncm_transform(
        kbox,
        offset + lo,
        data.subrange(lo, hi),
    ));
}

} // verus!
