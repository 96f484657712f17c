use vstd::prelude::*;

verus! {

/// The bytes of `piece` are found again at its offset in `prefix + piece + rest`.
pub proof fn lemma_piece_of_concat(prefix: Seq<u8>, piece: Seq<u8>, rest: Seq<u8>)
    ensures
        (prefix + piece + rest).subrange(prefix.len() as int, (prefix.len() + piece.len()) as int)
            == piece,
        (prefix + piece).subrange(prefix.len() as int, (prefix.len() + piece.len()) as int) == piece,
        (prefix + piece).subrange(0, prefix.len() as int) == prefix,
{
    assert((prefix + piece + rest).subrange(prefix.len() as int, (prefix.len() + piece.len()) as int)
        =~= piece);
    assert((prefix + piece).subrange(prefix.len() as int, (prefix.len() + piece.len()) as int) =~= piece);
    assert((prefix + piece).subrange(0, prefix.len() as int) =~= prefix);
}

/// `n` zero bytes.
pub open spec fn zero_bytes(n: nat) -> Seq<u8> {
    Seq::new(n, |i: int| 0u8)
}

/// Appends `n` zero bytes to `out`.
pub fn push_zeros(out: &mut Vec<u8>, n: usize)
    ensures
        final(out)@ == old(out)@ + zero_bytes(n as nat),
{
    let ghost start = out@;
    let mut i: usize = 0;
    while i < n
        invariant
            i <= n,
            out@ == start + zero_bytes(i as nat),
        decreases n - i,
    {
        out.push(0u8);
        i = i + 1;
        assert(out@ =~= start + zero_bytes(i as nat));
    }
}

/// Appends the bytes of `src` to `out`.
pub fn push_slice(out: &mut Vec<u8>, src: &[u8])
    ensures
        final(out)@ == old(out)@ + src@,
{
    let ghost start = out@;
    let mut i: usize = 0;
    while i < src.len()
        invariant
            i <= src@.len(),
            out@ == start + src@.subrange(0, i as int),
        decreases src@.len() - i,
    {
        out.push(src[i]);
        i = i + 1;
        assert(out@ =~= start + src@.subrange(0, i as int));
    }
    assert(src@.subrange(0, src@.len() as int) =~= src@);
}

/// Whether the two slices hold the same bytes.
pub fn bytes_equal(a: &[u8], b: &[u8]) -> (r: bool)
    ensures
        r == (a@ == b@),
{
    if a.len() != b.len() {
        return false;
    }
    let mut i: usize = 0;
    while i < a.len()
        invariant
            a@.len() == b@.len(),
            i <= a@.len(),
            forall|j: int| 0 <= j < i ==> a@[j] == b@[j],
        decreases a@.len() - i,
    {
        if a[i] != b[i] {
            return false;
        }
        i = i + 1;
    }
    assert(a@ =~= b@);
    true
}

/// The 32 bytes of `v` as an array.
pub fn to_array_32(v: &Vec<u8>) -> (a: [u8; 32])
    requires
        v@.len() == 32,
    ensures
        a@ == v@,
{
    let mut a = [0u8; 32];
    let mut i: usize = 0;
    while i < 32
        invariant
            v@.len() == 32,
            i <= 32,
            forall|j: int| 0 <= j < i ==> a@[j] == v@[j],
        decreases 32 - i,
    {
        a[i] = v[i];
        i = i + 1;
    }
    assert(a@ =~= v@);
    a
}

/// The 128 bytes of `v` as an array.
pub fn to_array_128(v: &Vec<u8>) -> (a: [u8; 128])
    requires
        v@.len() == 128,
    ensures
        a@ == v@,
{
    let mut a = [0u8; 128];
    let mut i: usize = 0;
    while i < 128
        invariant
            v@.len() == 128,
            i <= 128,
            forall|j: int| 0 <= j < i ==> a@[j] == v@[j],
        decreases 128 - i,
    {
        a[i] = v[i];
        i = i + 1;
    }
    assert(a@ =~= v@);
    a
}

/// The 320 bytes of `v` as an array.
pub fn to_array_320(v: &Vec<u8>) -> (a: [u8; 320])
    requires
        v@.len() == 320,
    ensures
        a@ == v@,
{
    let mut a = [0u8; 320];
    let mut i: usize = 0;
    while i < 320
        invariant
            v@.len() == 320,
            i <= 320,
            forall|j: int| 0 <= j < i ==> a@[j] == v@[j],
        decreases 320 - i,
    {
        a[i] = v[i];
        i = i + 1;
    }
    assert(a@ =~= v@);
    a
}

} // verus!
