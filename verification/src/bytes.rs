//! Byte-string vocabulary shared by the image formats: zero fill, padding,
//! splicing, and little-endian fields.
use vstd::prelude::*;

verus! {

/// `n` bytes of zero.
pub open spec fn zeros(n: int) -> Seq<u8> {
    Seq::new(n as nat, |i: int| 0u8)
}

/// `data` cut or zero-padded to exactly `n` bytes.
pub open spec fn fit(data: Seq<u8>, n: int) -> Seq<u8> {
    Seq::new(n as nat, |i: int| if i < data.len() { data[i] } else { 0u8 })
}

/// `s` with the bytes from `o` on replaced by `b`.
pub open spec fn splice(s: Seq<u8>, o: int, b: Seq<u8>) -> Seq<u8> {
    s.take(o) + b + s.skip(o + b.len())
}

/// `s` zero-extended to at least `n` bytes.
pub open spec fn grown(s: Seq<u8>, n: int) -> Seq<u8> {
    if n > s.len() {
        s + zeros(n - s.len())
    } else {
        s
    }
}

/// The two little-endian bytes of `v`.
pub open spec fn le16(v: u16) -> Seq<u8> {
    seq![(v % 256) as u8, (v / 256) as u8]
}

/// The 16-bit little-endian value at `o`.
pub open spec fn u16_at(b: Seq<u8>, o: int) -> u16 {
    (b[o] + 256 * b[o + 1]) as u16
}

/// Append `extra` to `v`.
pub fn push_all(v: &mut Vec<u8>, extra: &Vec<u8>)
    ensures
        final(v)@ == old(v)@ + extra@,
{
    let mut i: usize = 0;
    while i < extra.len()
        invariant
            i <= extra@.len(),
            v@ == old(v)@ + extra@.take(i as int),
        decreases extra@.len() - i,
    {
        v.push(extra[i]);
        i = i + 1;
        assert(v@ =~= old(v)@ + extra@.take(i as int));
    }
    assert(extra@.take(i as int) =~= extra@);
}

/// A copy of a byte vector.
pub fn copy_bytes(v: &Vec<u8>) -> (r: Vec<u8>)
    ensures
        r@ == v@,
{
    let mut r: Vec<u8> = Vec::new();
    push_all(&mut r, v);
    assert(r@ =~= v@);
    r
}

/// A copy of a byte slice.
pub fn slice_bytes(b: &[u8]) -> (v: Vec<u8>)
    ensures
        v@ == b@,
{
    let mut v: Vec<u8> = Vec::new();
    let mut i: usize = 0;
    while i < b.len()
        invariant
            i <= b@.len(),
            v@ == b@.take(i as int),
        decreases b@.len() - i,
    {
        v.push(b[i]);
        i = i + 1;
        assert(v@ =~= b@.take(i as int));
    }
    assert(b@.take(i as int) =~= b@);
    v
}

/// `data` cut or zero-padded to `n` bytes, as a new vector.
pub fn fit_vec(data: &Vec<u8>, n: usize) -> (v: Vec<u8>)
    ensures
        v@ == fit(data@, n as int),
{
    let mut v: Vec<u8> = Vec::new();
    let mut k: usize = 0;
    while k < n
        invariant
            k <= n,
            v@ == fit(data@, n as int).take(k as int),
        decreases n - k,
    {
        let b = if k < data.len() { data[k] } else { 0u8 };
        v.push(b);
        k = k + 1;
        assert(v@ =~= fit(data@, n as int).take(k as int));
    }
    assert(fit(data@, n as int).take(n as int) =~= fit(data@, n as int));
    v
}

/// Zero-extend `v` to at least `n` bytes.
pub fn grow(v: &mut Vec<u8>, n: usize)
    ensures
        final(v)@ == grown(old(v)@, n as int),
{
    let ghost s = v@;
    while v.len() < n
        invariant
            s == old(v)@,
            s.len() <= v@.len(),
            v@ == s + zeros(v@.len() - s.len()),
            n > s.len() ==> v@.len() <= n,
            n <= s.len() ==> v@.len() == s.len(),
        decreases n - v@.len(),
    {
        v.push(0);
        assert(v@ =~= s + zeros(v@.len() - s.len()));
    }
    assert(n <= s.len() ==> v@ =~= s) by {
        if n <= s.len() {
            assert(zeros(0) =~= Seq::<u8>::empty());
        }
    }
    assert(n > s.len() ==> v@ =~= s + zeros(n - s.len()));
}

/// Overwrite the bytes of `v` from `off` on with `b`.
pub fn write_at(v: &mut Vec<u8>, off: usize, b: &Vec<u8>)
    requires
        off + b@.len() <= old(v)@.len(),
    ensures
        final(v)@ == splice(old(v)@, off as int, b@),
{
    let len = v.len();
    let mut i: usize = 0;
    while i < b.len()
        invariant
            len == old(v)@.len(),
            off + b@.len() <= old(v)@.len(),
            v@.len() == old(v)@.len(),
            i <= b@.len(),
            v@ == splice(old(v)@, off as int, b@.take(i as int)),
        decreases b@.len() - i,
    {
        v[off + i] = b[i];
        i = i + 1;
        assert(v@ =~= splice(old(v)@, off as int, b@.take(i as int)));
    }
    assert(b@.take(i as int) =~= b@);
}

/// The 16-bit little-endian value at `o`.
pub fn read_u16(b: &Vec<u8>, o: usize) -> (r: u16)
    requires
        o + 1 < b@.len(),
    ensures
        r == u16_at(b@, o as int),
{
    let _n = b.len();
    ((b[o] as u32) + 256 * (b[o + 1] as u32)) as u16
}

} // verus!
