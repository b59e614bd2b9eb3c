//! `.hobeta` single-file container (`.$B`, `.$C`, `.$D`, ...).
//!
//! A hobeta file is one TR-DOS file's sector data prefixed with a 17-byte header
//! that carries the catalog metadata (name, type, start address, byte length,
//! sector count) plus a 2-byte header checksum. This is the standard way to move
//! a single TR-DOS file around losslessly.
//!
//! Header layout (17 bytes), then `sectors * 256` bytes of data:
//! ```text
//!   0x00  8  filename
//!   0x08  1  type letter
//!   0x09  2  start address        (LE)
//!   0x0B  2  length in bytes      (LE)
//!   0x0D  1  length in sectors
//!   0x0E  1  must be 0x00
//!   0x0F  2  header checksum       (LE)
//! ```
use vstd::prelude::*;
use crate::bytes::{fit, le16, u16_at};
use crate::entry::{ceil_sectors, fix_first, TrFile, TrFileView};

verus! {

/// Total size of the hobeta header.
pub const HEADER_LEN: usize = 17;

/// Sum over the first `n` header bytes of `h[i] * 257 + i`.
pub open spec fn crc_sum(h: Seq<u8>, n: int) -> nat
    decreases n,
{
    if n <= 0 {
        0
    } else {
        crc_sum(h, n - 1) + (h[n - 1] * 257 + (n - 1)) as nat
    }
}

/// The header checksum of `h`: [`crc_sum`] over its first 15 bytes (fewer if
/// `h` is shorter), modulo 0x10000.
pub open spec fn crc_of(h: Seq<u8>) -> u16 {
    let n = if h.len() < 15 { h.len() as int } else { 15 };
    (crc_sum(h, n) % 0x10000) as u16
}

/// Sector count a hobeta wrapper records for `f`: its data's, capped at 255.
pub open spec fn hobeta_sectors(f: TrFileView) -> u8 {
    let c = ceil_sectors(f.data.len() as int);
    if c > 255 {
        255u8
    } else {
        c as u8
    }
}

/// The first 15 header bytes for `f` (everything the checksum covers).
pub open spec fn hobeta_head(f: TrFileView) -> Seq<u8> {
    fix_first(f.name) + seq![f.file_type] + le16(f.start) + le16(f.length) + seq![
        hobeta_sectors(f),
        0u8,
    ]
}

/// The hobeta bytes [`wrap`] produces for `f`.
pub open spec fn hobeta_bytes(f: TrFileView) -> Seq<u8> {
    let h = hobeta_head(f);
    h + le16(crc_of(h)) + fit(f.data, hobeta_sectors(f) * 256)
}

/// What [`parse`] makes of `b`.
pub open spec fn hobeta_parse(b: Seq<u8>) -> Option<TrFileView> {
    if b.len() < 17 || b[14] != 0 || crc_of(b.take(15)) != u16_at(b, 15) {
        None
    } else {
        Some(
            TrFileView {
                name: b.take(8),
                file_type: b[8],
                start: u16_at(b, 9),
                length: u16_at(b, 11),
                sectors: b[13],
                deleted: false,
                data: fit(b.skip(17), b[13] * 256),
            },
        )
    }
}

proof fn lemma_crc_sum_bound(h: Seq<u8>, n: int)
    requires
        0 <= n <= h.len(),
        n <= 15,
    ensures
        crc_sum(h, n) <= n * 65549,
    decreases n,
{
    if n > 0 {
        lemma_crc_sum_bound(h, n - 1);
        assert((n - 1) * 65549 + 65549 == n * 65549) by (nonlinear_arith);
        assert(h[n - 1] * 257 <= 255 * 257) by (nonlinear_arith)
            requires
                h[n - 1] <= 255,
        ;
    }
}

proof fn lemma_crc_sum_prefix(a: Seq<u8>, b: Seq<u8>, n: int)
    requires
        0 <= n <= a.len(),
        n <= b.len(),
        forall|i: int| 0 <= i < n ==> a[i] == b[i],
    ensures
        crc_sum(a, n) == crc_sum(b, n),
    decreases n,
{
    if n > 0 {
        lemma_crc_sum_prefix(a, b, n - 1);
    }
}

/// Header checksum over the first 15 bytes (0x00..=0x0E):
/// `S = sum over i of header[i]*257 + i`, taken modulo 0x10000.
pub fn header_crc(h15: &[u8]) -> (r: u16)
    ensures
        r == crc_of(h15@),
{
    let n: usize = if h15.len() < 15 { h15.len() } else { 15 };
    let mut s: u32 = 0;
    let mut i: usize = 0;
    while i < n
        invariant
            n <= 15,
            n <= h15@.len(),
            i <= n,
            s == crc_sum(h15@, i as int),
        decreases n - i,
    {
        proof {
            lemma_crc_sum_bound(h15@, i as int);
            assert(h15@[i as int] * 257 <= 255 * 257) by (nonlinear_arith)
                requires
                    h15@[i as int] <= 255,
            ;
        }
        s = s + (h15[i] as u32) * 257 + (i as u32);
        i = i + 1;
    }
    assert((s & 0xffff) == s % 0x10000) by (bit_vector);
    (s & 0xffff) as u16
}

/// Wrap a TR-DOS file into hobeta bytes (17-byte header + sector-padded data).
/// A first name byte that would read as a marker (`0x00`/`0x01`) becomes `_`.
pub fn wrap(file: &TrFile) -> (out: Vec<u8>)
    ensures
        out@ == hobeta_bytes(file@),
{
    let ghost f = file@;
    let n = file.data.len();
    let need = n / 256 + if n % 256 != 0 { 1usize } else { 0usize };
    let sectors: u8 = if need > 255 { 255 } else { need as u8 };
    assert(sectors == hobeta_sectors(f));
    let mut h: Vec<u8> = Vec::new();
    let mut i: usize = 0;
    while i < 8
        invariant
            i <= 8,
            f == file@,
            f.name.len() == 8,
            h@ == fix_first(f.name).take(i as int),
        decreases 8 - i,
    {
        let mut b = file.name[i];
        if i == 0 && (b == 0 || b == 1) {
            b = 95;
        }
        h.push(b);
        i = i + 1;
        assert(h@ =~= fix_first(f.name).take(i as int));
    }
    h.push(file.file_type);
    h.push((file.start % 256) as u8);
    h.push((file.start / 256) as u8);
    h.push((file.length % 256) as u8);
    h.push((file.length / 256) as u8);
    h.push(sectors);
    h.push(0);
    assert(h@ =~= hobeta_head(f));
    let crc = header_crc(h.as_slice());
    h.push((crc % 256) as u8);
    h.push((crc / 256) as u8);
    let dlen = sectors as usize * 256;
    let mut k: usize = 0;
    let ghost h17 = h@;
    while k < dlen
        invariant
            dlen == hobeta_sectors(f) * 256,
            f == file@,
            k <= dlen,
            h@ == h17 + fit(f.data, dlen as int).take(k as int),
        decreases dlen - k,
    {
        let b = if k < file.data.len() { file.data[k] } else { 0u8 };
        h.push(b);
        k = k + 1;
        assert(h@ =~= h17 + fit(f.data, dlen as int).take(k as int));
    }
    assert(fit(f.data, dlen as int).take(dlen as int) =~= fit(f.data, dlen as int));
    h
}

/// Parse hobeta bytes back into a TR-DOS file, restoring all metadata. Returns
/// `None` if the bytes are not a valid hobeta (too short, a non-zero byte 0x0E,
/// or a bad checksum), so callers can fall back to treating the input as raw
/// data. Data missing at the end is read as zeros.
pub fn parse(bytes: &[u8]) -> (r: Option<TrFile>)
    ensures
        match r {
            Some(f) => hobeta_parse(bytes@) == Some(f@),
            None => hobeta_parse(bytes@).is_none(),
        },
{
    if bytes.len() < HEADER_LEN || bytes[14] != 0 {
        return None;
    }
    let h15 = slice_prefix(bytes, 15);
    let stored: u16 = (bytes[15] as u16) + 256 * (bytes[16] as u16);
    if header_crc(h15.as_slice()) != stored {
        return None;
    }
    let mut name: [u8; 8] = [0u8; 8];
    let mut i: usize = 0;
    while i < 8
        invariant
            i <= 8,
            bytes@.len() >= 17,
            forall|k: int| 0 <= k < i ==> name@[k] == bytes@[k],
        decreases 8 - i,
    {
        name[i] = bytes[i];
        i = i + 1;
    }
    assert(name@ =~= bytes@.take(8));
    let sectors = bytes[13];
    let dlen = sectors as usize * 256;
    let mut data: Vec<u8> = Vec::new();
    let mut k: usize = 0;
    let ghost want = fit(bytes@.skip(17), dlen as int);
    while k < dlen
        invariant
            k <= dlen,
            dlen <= 65280,
            bytes@.len() >= 17,
            want == fit(bytes@.skip(17), dlen as int),
            data@ == want.take(k as int),
        decreases dlen - k,
    {
        let b = if 17 + k < bytes.len() { bytes[17 + k] } else { 0u8 };
        data.push(b);
        k = k + 1;
        assert(data@ =~= want.take(k as int));
    }
    assert(want.take(dlen as int) =~= want);
    Some(
        TrFile {
            name,
            file_type: bytes[8],
            start: (bytes[9] as u16) + 256 * (bytes[10] as u16),
            length: (bytes[11] as u16) + 256 * (bytes[12] as u16),
            sectors,
            deleted: false,
            data,
        },
    )
}

/// The first `n` bytes of `b` as a vector.
fn slice_prefix(b: &[u8], n: usize) -> (v: Vec<u8>)
    requires
        n <= b@.len(),
    ensures
        v@ == b@.take(n as int),
{
    let mut v: Vec<u8> = Vec::new();
    let mut i: usize = 0;
    while i < n
        invariant
            i <= n <= b@.len(),
            v@ == b@.take(i as int),
        decreases n - i,
    {
        v.push(b[i]);
        i = i + 1;
        assert(v@ =~= b@.take(i as int));
    }
    v
}

/// Wrapping a file as hobeta and parsing it back gives the file again: name
/// (with a marker first byte turned into `_`), type, start address and byte
/// length exactly, the sector count of its data (capped at 255), not deleted,
/// and its data zero-padded (or cut) to whole sectors.
pub proof fn lemma_wrap_parse(f: TrFileView)
    requires
        f.name.len() == 8,
    ensures
        hobeta_parse(hobeta_bytes(f)) == Some(
            TrFileView {
                name: fix_first(f.name),
                file_type: f.file_type,
                start: f.start,
                length: f.length,
                sectors: hobeta_sectors(f),
                deleted: false,
                data: fit(f.data, hobeta_sectors(f) * 256),
            },
        ),
{
    let h = hobeta_head(f);
    let b = hobeta_bytes(f);
    assert(h.len() == 15);
    assert(b.take(15) =~= h);
    assert(b.take(8) =~= fix_first(f.name));
    assert(b.skip(17) =~= fit(f.data, hobeta_sectors(f) * 256));
    assert(u16_at(b, 15) == crc_of(h));
    assert(u16_at(b, 9) == f.start);
    assert(u16_at(b, 11) == f.length);
    assert(fit(b.skip(17), b[13] * 256) =~= fit(f.data, hobeta_sectors(f) * 256));
}

/// A canonical hobeta image (valid, exactly `17 + sectors * 256` bytes long, with
/// a first name byte that is not a marker) is rebuilt byte for byte by parsing it
/// and wrapping the result again.
pub proof fn lemma_parse_wrap(b: Seq<u8>)
    requires
        hobeta_parse(b).is_some(),
        b.len() == 17 + b[13] * 256,
        b[0] != 0 && b[0] != 1,
    ensures
        hobeta_bytes(hobeta_parse(b).unwrap()) == b,
{
    let f = hobeta_parse(b).unwrap();
    assert(f.data.len() == b[13] * 256);
    assert(ceil_sectors(f.data.len() as int) == b[13]);
    assert(hobeta_sectors(f) == b[13]);
    assert(fix_first(f.name) =~= b.take(8));
    let h = hobeta_head(f);
    assert(h =~= b.take(15));
    assert(fit(f.data, b[13] * 256) =~= b.skip(17));
    assert(hobeta_bytes(f) =~= b);
}

/// Raising header byte `i` (one of the first 15) by one raises the sum over the
/// first `n > i` bytes by 257.
proof fn lemma_crc_sum_step(h: Seq<u8>, i: int, n: int)
    requires
        0 <= i < n <= h.len(),
        h[i] < 255,
    ensures
        crc_sum(h.update(i, (h[i] + 1) as u8), n) == crc_sum(h, n) + 257,
    decreases n,
{
    let g = h.update(i, (h[i] + 1) as u8);
    if n - 1 > i {
        lemma_crc_sum_step(h, i, n - 1);
        assert(g[n - 1] == h[n - 1]);
    } else {
        lemma_crc_sum_prefix(g, h, n - 1);
    }
}

/// The checksum of an all-zero header is 0 + 1 + ... + 14 = 105: each position
/// adds its own index.
pub proof fn lemma_crc_of_zeros(h: Seq<u8>)
    requires
        h.len() == 15,
        forall|i: int| 0 <= i < 15 ==> #[trigger] h[i] == 0,
    ensures
        crc_of(h) == 105,
{
    reveal_with_fuel(crc_sum, 16);
    assert(crc_sum(h, 15) == 105);
}

/// Raising one of the first 15 header bytes by one raises the checksum by
/// 257 (modulo 0x10000): each byte counts 257 times its value. With
/// [`lemma_crc_of_zeros`] this fixes the checksum of every header: the sum of
/// `header[i] * 257 + i`, modulo 0x10000.
pub proof fn lemma_crc_of_step(h: Seq<u8>, i: int)
    requires
        h.len() == 15,
        0 <= i < 15,
        h[i] < 255,
    ensures
        crc_of(h.update(i, (h[i] + 1) as u8)) == (crc_of(h) + 257) % 0x10000,
{
    lemma_crc_sum_step(h, i, 15);
    let a = crc_sum(h, 15) as int;
    vstd::arithmetic::div_mod::lemma_add_mod_noop(a, 257, 0x10000);
    assert(257int % 0x10000 == 257);
}

/// Bytes after the first 15 do not count towards the checksum.
pub proof fn lemma_crc_of_ignores_tail(h: Seq<u8>, i: int, v: u8)
    requires
        h.len() > 15,
        15 <= i < h.len(),
    ensures
        crc_of(h.update(i, v)) == crc_of(h),
{
    lemma_crc_sum_prefix(h.update(i, v), h, 15);
}

/// The header [`wrap`] writes, byte by byte: the name (a marker first byte
/// turned into `_`), the type, the start address and the byte length low byte
/// first, the sector count, a zero, and the checksum of those 15 bytes low
/// byte first; the data follows from byte 17 on.
pub proof fn lemma_wrap_header_layout(f: TrFileView)
    requires
        f.name.len() == 8,
    ensures
        hobeta_bytes(f).len() == 17 + hobeta_sectors(f) * 256,
        forall|i: int| 0 <= i < 8 ==> #[trigger] hobeta_bytes(f)[i] == fix_first(f.name)[i],
        hobeta_bytes(f)[8] == f.file_type,
        hobeta_bytes(f)[9] == f.start % 256,
        hobeta_bytes(f)[10] == f.start / 256,
        hobeta_bytes(f)[11] == f.length % 256,
        hobeta_bytes(f)[12] == f.length / 256,
        hobeta_bytes(f)[13] == hobeta_sectors(f),
        hobeta_bytes(f)[14] == 0,
        hobeta_bytes(f)[15] == crc_of(hobeta_bytes(f).take(15)) % 256,
        hobeta_bytes(f)[16] == crc_of(hobeta_bytes(f).take(15)) / 256,
{
    let h = hobeta_head(f);
    let b = hobeta_bytes(f);
    assert(h.len() == 15);
    assert(b.take(15) =~= h);
}

} // verus!
