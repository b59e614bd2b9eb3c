//! Sinclair `.scl` archive: a packed list of TR-DOS files, not a disk image.
//!
//! Layout: `"SINCLAIR"` (8) + file count N (1) + N * 14-byte descriptors +
//! concatenated file data (each `sectors * 256` bytes) + a trailing 4-byte
//! little-endian additive sum of every preceding byte. SCL has no geometry,
//! no free-space map and no deleted files.
use vstd::prelude::*;
use vstd::string::{StringExecFns, StringSliceAdditionalSpecFns};
use crate::bytes::{fit, fit_vec, le16, push_all, u16_at};
use crate::entry::{
    ceil_sectors, fix_first, names_file, split_name_type_spec, views, ExtMode, TrFile,
    TrFileView,
};
use crate::error::Error;

verus! {

/// SCL stores the file count in a single byte.
pub const MAX_FILES: usize = 255;
/// Magic plus file count.
pub const HEADER_LEN: usize = 9;
/// Bytes per file descriptor.
pub const DESC_LEN: usize = 14;

/// `"SINCLAIR"`.
pub open spec fn scl_magic() -> Seq<u8> {
    seq![83u8, 73u8, 78u8, 67u8, 76u8, 65u8, 73u8, 82u8]
}

/// The 14-byte descriptor written for `f`: raw name, type, start, byte length,
/// and the sector count of its data.
pub open spec fn scl_desc(f: TrFileView) -> Seq<u8> {
    f.name + seq![f.file_type] + le16(f.start) + le16(f.length) + seq![
        ceil_sectors(f.data.len() as int) as u8,
    ]
}

/// The descriptors of `fs`, in order.
pub open spec fn scl_descs(fs: Seq<TrFileView>) -> Seq<u8>
    decreases fs.len(),
{
    if fs.len() == 0 {
        Seq::<u8>::empty()
    } else {
        scl_descs(fs.drop_last()) + scl_desc(fs.last())
    }
}

/// The data of `f` padded to whole sectors.
pub open spec fn scl_padded(f: TrFileView) -> Seq<u8> {
    fit(f.data, ceil_sectors(f.data.len() as int) * 256)
}

/// The padded data of `fs`, in order.
pub open spec fn scl_datas(fs: Seq<TrFileView>) -> Seq<u8>
    decreases fs.len(),
{
    if fs.len() == 0 {
        Seq::<u8>::empty()
    } else {
        scl_datas(fs.drop_last()) + scl_padded(fs.last())
    }
}

/// Sum of all bytes of `s`.
pub open spec fn byte_sum(s: Seq<u8>) -> nat
    decreases s.len(),
{
    if s.len() == 0 {
        0
    } else {
        byte_sum(s.drop_last()) + s.last() as nat
    }
}

/// The four little-endian bytes of `v`.
pub open spec fn le32(v: nat) -> Seq<u8> {
    seq![(v % 256) as u8, ((v / 256) % 256) as u8, ((v / 65536) % 256) as u8, ((v / 16777216) % 256) as u8]
}

/// Everything before the checksum: magic, count, descriptors, data.
pub open spec fn scl_body(fs: Seq<TrFileView>) -> Seq<u8> {
    scl_magic() + seq![fs.len() as u8] + scl_descs(fs) + scl_datas(fs)
}

/// The SCL bytes for `fs`: the body, then the sum of its bytes modulo 2^32,
/// little-endian.
pub open spec fn scl_bytes(fs: Seq<TrFileView>) -> Seq<u8> {
    let body = scl_body(fs);
    body + le32(byte_sum(body) % 0x1_0000_0000)
}

/// `b` starts with the SCL magic and a count byte.
pub open spec fn scl_magic_ok(b: Seq<u8>) -> bool {
    b.len() >= 9 && b.take(8) == scl_magic()
}

/// The descriptors the count byte announces are all present.
pub open spec fn scl_catalog_fits(b: Seq<u8>) -> bool {
    b.len() >= 9 + 14 * b[8]
}

/// Offset of the data of file `i`: after the catalog, past the data of the
/// files before it.
pub open spec fn scl_data_off(b: Seq<u8>, i: int) -> int
    decreases i,
{
    if i <= 0 {
        9 + 14 * b[8]
    } else {
        scl_data_off(b, i - 1) + b[9 + 14 * (i - 1) + 13] * 256
    }
}

/// File `i` of the archive `b`: its descriptor, and `sectors * 256` bytes from
/// its data offset, zero past the end of `b`.
pub open spec fn scl_file_at(b: Seq<u8>, i: int) -> TrFileView {
    let o = 9 + 14 * i;
    let off = scl_data_off(b, i);
    TrFileView {
        name: b.subrange(o, o + 8),
        file_type: b[o + 8],
        start: u16_at(b, o + 9),
        length: u16_at(b, o + 11),
        sectors: b[o + 13],
        deleted: false,
        data: Seq::new(
            (b[o + 13] * 256) as nat,
            |j: int|
                if off + j < b.len() {
                    b[off + j]
                } else {
                    0u8
                },
        ),
    }
}

/// The files of an SCL archive whose magic and catalog are present.
pub open spec fn scl_files(b: Seq<u8>) -> Seq<TrFileView> {
    Seq::new(b[8] as nat, |i: int| scl_file_at(b, i))
}

/// The file as an add stores it: sector count from its data, the byte length
/// derived from the data only when none was given, not deleted, and a marker
/// first name byte turned into `_`.
pub open spec fn scl_added(f: TrFileView) -> TrFileView {
    TrFileView {
        name: fix_first(f.name),
        sectors: ceil_sectors(f.data.len() as int) as u8,
        length: if f.length == 0 && f.data.len() != 0 {
            if f.data.len() > 65535 {
                65535u16
            } else {
                f.data.len() as u16
            }
        } else {
            f.length
        },
        deleted: false,
        ..f
    }
}

/// Index of the first file at or after `k` named `target` in `mode`, or -1.
pub open spec fn scl_first_named_from(fs: Seq<TrFileView>, k: int, target: Seq<char>, mode: ExtMode) -> int
    decreases fs.len() - k,
{
    if k >= fs.len() || k < 0 {
        -1
    } else if names_file(fs[k], target, mode) {
        k
    } else {
        scl_first_named_from(fs, k + 1, target, mode)
    }
}

/// Index of the first file named `target` in `mode`, or -1.
pub open spec fn scl_first_named(fs: Seq<TrFileView>, target: Seq<char>, mode: ExtMode) -> int {
    scl_first_named_from(fs, 0, target, mode)
}

/// File `f` renamed to the host name with bytes `new_bs`.
pub open spec fn scl_renamed(f: TrFileView, new_bs: Seq<u8>) -> TrFileView {
    let (nn, nt, ns) = split_name_type_spec(new_bs);
    TrFileView {
        name: fix_first(nn),
        file_type: nt,
        start: match ns {
            Some(a) => a,
            None => f.start,
        },
        ..f
    }
}

/// An in-memory SCL archive.
pub struct SclArchive {
    pub files: Vec<TrFile>,
}

impl View for SclArchive {
    type V = Seq<TrFileView>;

    open spec fn view(&self) -> Seq<TrFileView> {
        views(self.files@)
    }
}

/// A copy of a list of files.
fn copy_files(fs: &Vec<TrFile>) -> (r: Vec<TrFile>)
    ensures
        views(r@) == views(fs@),
{
    let mut r: Vec<TrFile> = Vec::new();
    let mut i: usize = 0;
    while i < fs.len()
        invariant
            i <= fs@.len(),
            views(r@) == views(fs@).take(i as int),
        decreases fs@.len() - i,
    {
        let c = fs[i].duplicate();
        let ghost prev = r@;
        r.push(c);
        proof {
            assert(r@ == prev.push(c));
            assert(views(r@) =~= views(fs@).take(i + 1)) by {
                assert(views(prev).len() == prev.len());
                assert forall|j: int| 0 <= j < i + 1 implies #[trigger] views(r@)[j] == views(
                    fs@,
                ).take(i + 1)[j] by {
                    if j < i {
                        assert(r@[j] == prev[j]);
                        assert(views(prev)[j] == views(fs@).take(i as int)[j]);
                    }
                }
            }
        }
        i = i + 1;
    }
    assert(views(fs@).take(i as int) =~= views(fs@));
    r
}

impl SclArchive {
    /// An empty archive.
    pub fn blank() -> (r: SclArchive)
        ensures
            r@ == Seq::<TrFileView>::empty(),
    {
        let r = SclArchive { files: Vec::new() };
        assert(r@ =~= Seq::<TrFileView>::empty());
        r
    }

    /// Parse an archive. The magic must be present (else
    /// [`Error::UnknownFormat`]) and all announced descriptors (else
    /// [`Error::BadArchive`]); file data missing at the end reads as zeros.
    pub fn from_bytes(bytes: &[u8]) -> (r: Result<SclArchive, Error>)
        ensures
            !scl_magic_ok(bytes@) ==> r == Err::<SclArchive, Error>(Error::UnknownFormat),
            scl_magic_ok(bytes@) && !scl_catalog_fits(bytes@) ==> (r matches Err(
                Error::BadArchive(m),
            ) && m@ == "catalog truncated"@),
            scl_magic_ok(bytes@) && scl_catalog_fits(bytes@) ==> (r matches Ok(a) && a@
                == scl_files(bytes@)),
    {
        let len = bytes.len();
        if len < HEADER_LEN {
            return Err(Error::UnknownFormat);
        }
        let magic: [u8; 8] = [83, 73, 78, 67, 76, 65, 73, 82];
        let mut i: usize = 0;
        while i < 8
            invariant
                i <= 8,
                len == bytes@.len(),
                len >= 9,
                magic@ == scl_magic(),
                forall|j: int| 0 <= j < i ==> bytes@[j] == scl_magic()[j],
            decreases 8 - i,
        {
            if bytes[i] != magic[i] {
                assert(bytes@.take(8)[i as int] != scl_magic()[i as int]);
                return Err(Error::UnknownFormat);
            }
            i = i + 1;
        }
        assert(bytes@.take(8) =~= scl_magic());
        let n = bytes[8] as usize;
        let cat_end = HEADER_LEN + n * DESC_LEN;
        if len < cat_end {
            return Err(Error::BadArchive(String::from_str("catalog truncated")));
        }
        let mut files: Vec<TrFile> = Vec::new();
        let mut data_off: usize = cat_end;
        let mut k: usize = 0;
        while k < n
            invariant
                k <= n,
                n == bytes@[8],
                len == bytes@.len(),
                cat_end == 9 + 14 * n,
                len >= cat_end,
                data_off == scl_data_off(bytes@, k as int),
                data_off <= cat_end + k * 65280,
                views(files@) == scl_files(bytes@).take(k as int),
            decreases n - k,
        {
            let o = HEADER_LEN + k * DESC_LEN;
            let mut name: [u8; 8] = [0u8; 8];
            let mut j: usize = 0;
            while j < 8
                invariant
                    j <= 8,
                    o + 14 <= len,
                    len == bytes@.len(),
                    forall|q: int| 0 <= q < j ==> name@[q] == bytes@[o + q],
                decreases 8 - j,
            {
                name[j] = bytes[o + j];
                j = j + 1;
            }
            assert(name@ =~= bytes@.subrange(o as int, o + 8));
            let sectors = bytes[o + 13];
            let dlen = sectors as usize * 256;
            let mut data: Vec<u8> = Vec::new();
            let mut q: usize = 0;
            let ghost want = scl_file_at(bytes@, k as int).data;
            while q < dlen
                invariant
                    q <= dlen,
                    dlen == sectors * 256,
                    sectors == bytes@[o + 13],
                    o == 9 + 14 * k,
                    len == bytes@.len(),
                    data_off == scl_data_off(bytes@, k as int),
                    data_off <= cat_end + k * 65280,
                    cat_end <= 9 + 14 * 255,
                    k < 255,
                    want == scl_file_at(bytes@, k as int).data,
                    data@ == want.take(q as int),
                decreases dlen - q,
            {
                let b = if data_off + q < len { bytes[data_off + q] } else { 0u8 };
                data.push(b);
                q = q + 1;
                assert(data@ =~= want.take(q as int));
            }
            assert(want.take(dlen as int) =~= want);
            let f = TrFile {
                name,
                file_type: bytes[o + 8],
                start: ((bytes[o + 9] as u32) + 256 * (bytes[o + 10] as u32)) as u16,
                length: ((bytes[o + 11] as u32) + 256 * (bytes[o + 12] as u32)) as u16,
                sectors,
                deleted: false,
                data,
            };
            let ghost prev = files@;
            files.push(f);
            proof {
                let want_all = scl_files(bytes@);
                assert(files@ == prev.push(f));
                assert(views(prev).len() == prev.len());
                assert forall|x: int| 0 <= x < k + 1 implies #[trigger] views(files@)[x]
                    == want_all.take(k + 1)[x] by {
                    if x < k {
                        assert(files@[x] == prev[x]);
                        assert(views(prev)[x] == want_all.take(k as int)[x]);
                    }
                }
                assert(views(files@) =~= want_all.take(k + 1));
            }
            data_off = data_off + dlen;
            k = k + 1;
        }
        assert(scl_files(bytes@).take(n as int) =~= scl_files(bytes@));
        Ok(SclArchive { files })
    }

    /// Copies of all files, in order.
    pub fn entries(&self) -> (r: Vec<TrFile>)
        ensures
            views(r@) == self@,
    {
        copy_files(&self.files)
    }

    /// Append a file. At most 255 files ([`Error::TooManyFiles`]) of at most 255
    /// sectors each ([`Error::FileTooBig`]); the sector count comes from the
    /// data, a byte length given by the caller (e.g. from hobeta) is kept and
    /// only derived from the data when it is 0.
    pub fn add_file(&mut self, file: &TrFile) -> (r: Result<(), Error>)
        ensures
            old(self)@.len() >= 255 ==> r == Err::<(), Error>(Error::TooManyFiles) && final(self)@
                == old(self)@,
            old(self)@.len() < 255 && file@.data.len() > 255 * 256 ==> r == Err::<(), Error>(
                Error::FileTooBig,
            ) && final(self)@ == old(self)@,
            old(self)@.len() < 255 && file@.data.len() <= 255 * 256 ==> r is Ok && final(self)@
                == old(self)@.push(scl_added(file@)),
    {
        if self.files.len() >= MAX_FILES {
            return Err(Error::TooManyFiles);
        }
        let n = file.data.len();
        if n > 255 * 256 {
            return Err(Error::FileTooBig);
        }
        let mut f = file.duplicate();
        f.sectors = ((n + 255) / 256) as u8;
        if f.length == 0 && n != 0 {
            f.length = if n > 65535 { 65535 } else { n as u16 };
        }
        f.deleted = false;
        if f.name[0] == 0 || f.name[0] == 1 {
            f.name[0] = 95;
        }
        assert(f@.name =~= fix_first(file@.name));
        assert(f@ == scl_added(file@));
        let ghost prev = self.files@;
        self.files.push(f);
        proof {
            assert(self.files@ == prev.push(f));
            assert(views(prev).len() == prev.len());
            assert forall|x: int| 0 <= x < prev.len() + 1 implies #[trigger] views(self.files@)[x]
                == views(prev).push(scl_added(file@))[x] by {
                if x < prev.len() {
                    assert(self.files@[x] == prev[x]);
                }
            }
            assert(views(self.files@) =~= views(prev).push(scl_added(file@)));
        }
        Ok(())
    }

    /// Index of the first file named `target` in `mode`.
    fn find(&self, target: &String, mode: ExtMode) -> (r: Option<usize>)
        ensures
            match r {
                Some(k) => k < self@.len() && k as int == scl_first_named(self@, target@, mode),
                None => scl_first_named(self@, target@, mode) == -1,
            },
    {
        let n = self.files.len();
        let mut k: usize = 0;
        while k < n
            invariant
                k <= n,
                n == self.files@.len(),
                n == self@.len(),
                scl_first_named_from(self@, k as int, target@, mode) == scl_first_named(
                    self@,
                    target@,
                    mode,
                ),
            decreases n - k,
        {
            if self.files[k].is_named(target, mode) {
                return Some(k);
            }
            k = k + 1;
        }
        None
    }

    /// Rename the first file whose display name (in `mode`) or hobeta name is
    /// `target` to `new_basename` (name and type; a 3-char extension also sets
    /// the start address; data unchanged). Returns whether a match was found.
    pub fn rename_with(&mut self, target: &str, new_basename: &str, mode: ExtMode) -> (found:
        bool)
        ensures
            found == (scl_first_named(old(self)@, target@, mode) >= 0),
            found ==> final(self)@ == old(self)@.update(
                scl_first_named(old(self)@, target@, mode),
                scl_renamed(
                    old(self)@[scl_first_named(old(self)@, target@, mode)],
                    new_basename.spec_bytes(),
                ),
            ),
            !found ==> final(self)@ == old(self)@,
    {
        let t = String::from_str(target);
        match self.find(&t, mode) {
            Some(k) => {
                let (mut nn, nt, ns) = TrFile::split_name_type(new_basename);
                if nn[0] == 0 || nn[0] == 1 {
                    nn[0] = 95;
                }
                let mut f = self.files[k].duplicate();
                let ghost old_f = f@;
                f.name = nn;
                f.file_type = nt;
                if let Some(s) = ns {
                    f.start = s;
                }
                proof {
                    let (sn, st, ss) = split_name_type_spec(new_basename.spec_bytes());
                    assert(f@.name =~= fix_first(sn));
                    assert(f@ == scl_renamed(old_f, new_basename.spec_bytes()));
                }
                let ghost prev = self.files@;
                self.files.set(k, f);
                proof {
                    assert(self.files@ == prev.update(k as int, f));
                    assert(views(self.files@) =~= views(prev).update(k as int, f@));
                }
                true
            },
            None => false,
        }
    }

    /// [`SclArchive::rename_with`] in the library's default mode, [`ExtMode::Smart`].
    pub fn rename(&mut self, target: &str, new_basename: &str) -> (found: bool)
        ensures
            found == (scl_first_named(old(self)@, target@, ExtMode::Smart) >= 0),
            found ==> final(self)@ == old(self)@.update(
                scl_first_named(old(self)@, target@, ExtMode::Smart),
                scl_renamed(
                    old(self)@[scl_first_named(old(self)@, target@, ExtMode::Smart)],
                    new_basename.spec_bytes(),
                ),
            ),
            !found ==> final(self)@ == old(self)@,
    {
        self.rename_with(target, new_basename, ExtMode::Smart)
    }

    /// Remove the first file whose display name (in `mode`) or hobeta name is
    /// `target`. Returns whether a match was found.
    pub fn remove_file_with(&mut self, target: &str, mode: ExtMode) -> (found: bool)
        ensures
            found == (scl_first_named(old(self)@, target@, mode) >= 0),
            found ==> final(self)@ == old(self)@.remove(scl_first_named(old(self)@, target@, mode)),
            !found ==> final(self)@ == old(self)@,
    {
        let t = String::from_str(target);
        match self.find(&t, mode) {
            Some(k) => {
                let ghost prev = self.files@;
                let _gone = self.files.remove(k);
                proof {
                    assert(self.files@ == prev.remove(k as int));
                    assert(views(self.files@) =~= views(prev).remove(k as int));
                }
                true
            },
            None => false,
        }
    }

    /// [`SclArchive::remove_file_with`] in the library's default mode, [`ExtMode::Smart`].
    pub fn remove_file(&mut self, target: &str) -> (found: bool)
        ensures
            found == (scl_first_named(old(self)@, target@, ExtMode::Smart) >= 0),
            found ==> final(self)@ == old(self)@.remove(
                scl_first_named(old(self)@, target@, ExtMode::Smart),
            ),
            !found ==> final(self)@ == old(self)@,
    {
        self.remove_file_with(target, ExtMode::Smart)
    }

    /// The archive bytes: magic, count (mod 256), descriptors, sector-padded
    /// data, and the 4-byte little-endian sum of all of it.
    pub fn to_bytes(&self) -> (out: Vec<u8>)
        requires
            scl_bytes(self@).len() <= usize::MAX,
        ensures
            out@ == scl_bytes(self@),
    {
        let ghost fs = self@;
        let mut out: Vec<u8> = Vec::new();
        out.push(83);
        out.push(73);
        out.push(78);
        out.push(67);
        out.push(76);
        out.push(65);
        out.push(73);
        out.push(82);
        out.push(self.files.len() as u8);
        let ghost head = out@;
        assert(head =~= scl_magic() + seq![fs.len() as u8]);
        let n = self.files.len();
        let mut i: usize = 0;
        while i < n
            invariant
                i <= n,
                n == self.files@.len(),
                fs == self@,
                fs.len() == n,
                out@ == head + scl_descs(fs.take(i as int)),
            decreases n - i,
        {
            let f = &self.files[i];
            let dn = f.data.len();
            let ceil = dn / 256 + if dn % 256 != 0 { 1usize } else { 0usize };
            assert(ceil == ceil_sectors(dn as int));
            let sectors = ceil as u8;
            let mut d: Vec<u8> = Vec::new();
            let mut j: usize = 0;
            while j < 8
                invariant
                    j <= 8,
                    f.name@.len() == 8,
                    d@ == f.name@.take(j as int),
                decreases 8 - j,
            {
                d.push(f.name[j]);
                j = j + 1;
                assert(d@ =~= f.name@.take(j as int));
            }
            d.push(f.file_type);
            d.push((f.start % 256) as u8);
            d.push((f.start / 256) as u8);
            d.push((f.length % 256) as u8);
            d.push((f.length / 256) as u8);
            d.push(sectors);
            proof {
                assert(fs[i as int] == f@);
                assert(d@ =~= scl_desc(f@));
                assert(fs.take(i + 1).drop_last() =~= fs.take(i as int));
                assert(fs.take(i + 1).last() == f@);
            }
            push_all(&mut out, &d);
            i = i + 1;
            assert(out@ =~= head + scl_descs(fs.take(i as int)));
        }
        assert(fs.take(n as int) =~= fs);
        let ghost mid = out@;
        let mut i: usize = 0;
        while i < n
            invariant
                i <= n,
                n == self.files@.len(),
                fs == self@,
                fs.len() == n,
                out@ == mid + scl_datas(fs.take(i as int)),
                scl_bytes(fs).len() <= usize::MAX,
                mid == scl_magic() + seq![fs.len() as u8] + scl_descs(fs),
            decreases n - i,
        {
            let f = &self.files[i];
            let dn = f.data.len();
            proof {
                lemma_datas_prefix_len(fs, i + 1);
                assert(fs.take(i + 1).drop_last() =~= fs.take(i as int));
                assert(fs.take(i + 1).last() == fs[i as int]);
                assert(fs[i as int] == f@);
                assert(scl_padded(f@).len() == ceil_sectors(dn as int) * 256);
                assert(scl_body(fs).len() >= scl_datas(fs).len());
            }
            let ceil = dn / 256 + if dn % 256 != 0 { 1usize } else { 0usize };
            assert(ceil == ceil_sectors(dn as int));
            let need = ceil * 256;
            let padded = fit_vec(&f.data, need);
            proof {
                assert(fs[i as int] == f@);
                assert(fs.take(i + 1).drop_last() =~= fs.take(i as int));
                assert(fs.take(i + 1).last() == f@);
            }
            push_all(&mut out, &padded);
            i = i + 1;
            assert(out@ =~= mid + scl_datas(fs.take(i as int)));
        }
        assert(fs.take(n as int) =~= fs);
        assert(out@ =~= scl_body(fs));
        let ghost body = out@;
        let sum = checksum(&out);
        out.push((sum % 256) as u8);
        out.push(((sum / 256) % 256) as u8);
        out.push(((sum / 65536) % 256) as u8);
        out.push(((sum / 16777216) % 256) as u8);
        assert(out@ =~= scl_bytes(fs));
        out
    }
}

/// The padded data of the first `i` files is no longer than that of all.
proof fn lemma_datas_prefix_len(fs: Seq<TrFileView>, i: int)
    requires
        0 <= i <= fs.len(),
    ensures
        scl_datas(fs.take(i)).len() <= scl_datas(fs).len(),
    decreases fs.len() - i,
{
    if i < fs.len() {
        lemma_datas_prefix_len(fs, i + 1);
        assert(fs.take(i + 1).drop_last() =~= fs.take(i));
    } else {
        assert(fs.take(i) =~= fs);
    }
}

/// Sum of all bytes of `b`, modulo 2^32.
fn checksum(b: &Vec<u8>) -> (r: u32)
    ensures
        r == byte_sum(b@) % 0x1_0000_0000,
{
    let mut sum: u32 = 0;
    let mut i: usize = 0;
    while i < b.len()
        invariant
            i <= b@.len(),
            sum == byte_sum(b@.take(i as int)) % 0x1_0000_0000,
        decreases b@.len() - i,
    {
        let t: u64 = sum as u64 + b[i] as u64;
        proof {
            assert(b@.take(i + 1).drop_last() =~= b@.take(i as int));
            vstd::arithmetic::div_mod::lemma_add_mod_noop(
                byte_sum(b@.take(i as int)) as int,
                b@[i as int] as int,
                0x1_0000_0000,
            );
        }
        sum = if t >= 0x1_0000_0000 { (t - 0x1_0000_0000) as u32 } else { t as u32 };
        i = i + 1;
    }
    assert(b@.take(i as int) =~= b@);
    sum
}

} // verus!
