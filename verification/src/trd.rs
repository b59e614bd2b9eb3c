//! TR-DOS `.trd` disk image: a headerless, flat, sector-by-sector dump.
//!
//! Geometry is fixed at 256-byte sectors, 16 sectors per track. The catalog
//! lives in track 0 sectors 0..8 (offset 0x000..0x800), followed by the disk
//! info sector at offset 0x800. File data starts at logical track 1.
use vstd::prelude::*;
use vstd::string::{StrSliceExecFns, StringExecFns, StringSliceAdditionalSpecFns};
use crate::bytes::{
    copy_bytes, fit, fit_vec, grow, grown, le16, read_u16, slice_bytes, splice, u16_at, write_at,
    zeros,
};
use crate::entry::{
    ceil_sectors, fix_first, name8, names_file, split_name_type_spec, views, ExtMode, TrFile,
    TrFileView,
};
use crate::error::Error;
use crate::text::{chars_of, spec_utf8_lossy, trim_bounds, trim_end, utf8_lossy};
use vstd::utf8::{decode_utf8, valid_utf8};

verus! {

/// Sectors per logical track.
pub const TRACK_SECTORS: usize = 16;
/// Maximum catalog entries.
pub const CATALOG_ENTRIES: usize = 128;
/// Bytes per catalog entry.
pub const ENTRY_SIZE: usize = 16;
/// Absolute offset of the disk-info sector (track 0, sector 8).
pub const INFO_SECTOR: usize = 2048;
/// TR-DOS filesystem id byte, found at INFO_SECTOR + 0xE7.
pub const TRDOS_ID: u8 = 0x10;

/// Offset of the first free sector number.
pub const OFF_FIRST_FREE_SECTOR: usize = INFO_SECTOR + 0xE1;
/// Offset of the first free track number.
pub const OFF_FIRST_FREE_TRACK: usize = INFO_SECTOR + 0xE2;
/// Offset of the disk-type byte.
pub const OFF_DISK_TYPE: usize = INFO_SECTOR + 0xE3;
/// Offset of the file count.
pub const OFF_NUM_FILES: usize = INFO_SECTOR + 0xE4;
/// Offset of the free-sector count (u16 little-endian).
pub const OFF_FREE_SECTORS: usize = INFO_SECTOR + 0xE5;
/// Offset of the TR-DOS id byte.
pub const OFF_TRDOS_ID: usize = INFO_SECTOR + 0xE7;
/// Offset of the deleted-file counter.
pub const OFF_DELETED_COUNT: usize = INFO_SECTOR + 0xF4;
/// Offset of the 8-byte disk label.
pub const OFF_LABEL: usize = INFO_SECTOR + 0xF5;
/// Smallest image this library can read: the catalog and the info sector.
pub const MIN_IMAGE_LEN: usize = INFO_SECTOR + 256;

/// TR-DOS disk geometry variants, keyed by the disk-type byte at 0x8E3.
#[derive(Copy, Clone, Debug, PartialEq, Eq, Structural)]
pub enum DiskType {
    /// 0x16 - 80 tracks, double sided, 640 KB (the common case).
    Ds80,
    /// 0x17 - 40 tracks, double sided, 320 KB.
    Ds40,
    /// 0x18 - 80 tracks, single sided, 320 KB.
    Ss80,
    /// 0x19 - 40 tracks, single sided, 160 KB.
    Ss40,
}

/// The disk type a type byte stands for.
pub open spec fn disk_type_of(b: u8) -> Option<DiskType> {
    if b == 0x16 {
        Some(DiskType::Ds80)
    } else if b == 0x17 {
        Some(DiskType::Ds40)
    } else if b == 0x18 {
        Some(DiskType::Ss80)
    } else if b == 0x19 {
        Some(DiskType::Ss40)
    } else {
        None
    }
}

/// The type byte of a disk type.
pub open spec fn disk_type_byte(dt: DiskType) -> u8 {
    match dt {
        DiskType::Ds80 => 0x16u8,
        DiskType::Ds40 => 0x17u8,
        DiskType::Ss80 => 0x18u8,
        DiskType::Ss40 => 0x19u8,
    }
}

/// Logical tracks (cylinders * sides) of a disk type.
pub open spec fn tracks_of(dt: DiskType) -> int {
    match dt {
        DiskType::Ds80 => 160,
        DiskType::Ds40 => 80,
        DiskType::Ss80 => 80,
        DiskType::Ss40 => 40,
    }
}

/// Image size in bytes of a disk type.
pub open spec fn size_of_disk(dt: DiskType) -> int {
    tracks_of(dt) * 16 * 256
}

impl DiskType {
    /// The disk type of a type byte, if it is one of the four.
    pub fn from_byte(b: u8) -> (r: Option<DiskType>)
        ensures
            r == disk_type_of(b),
    {
        match b {
            0x16 => Some(DiskType::Ds80),
            0x17 => Some(DiskType::Ds40),
            0x18 => Some(DiskType::Ss80),
            0x19 => Some(DiskType::Ss40),
            _ => None,
        }
    }

    /// The type byte stored at 0x8E3.
    pub fn to_byte(self) -> (r: u8)
        ensures
            r == disk_type_byte(self),
    {
        match self {
            DiskType::Ds80 => 0x16,
            DiskType::Ds40 => 0x17,
            DiskType::Ss80 => 0x18,
            DiskType::Ss40 => 0x19,
        }
    }

    /// Number of logical tracks (cylinders * sides).
    pub fn tracks(self) -> (r: usize)
        ensures
            r == tracks_of(self),
    {
        match self {
            DiskType::Ds80 => 160,
            DiskType::Ds40 => 80,
            DiskType::Ss80 => 80,
            DiskType::Ss40 => 40,
        }
    }

    /// Total sectors of the disk.
    pub fn total_sectors(self) -> (r: usize)
        ensures
            r == tracks_of(self) * 16,
    {
        self.tracks() * TRACK_SECTORS
    }

    /// Image size in bytes.
    pub fn size(self) -> (r: usize)
        ensures
            r == size_of_disk(self),
    {
        self.total_sectors() * 256
    }
}

// ---- the byte-level model -------------------------------------------------
/// Offset of catalog slot `k`.
pub open spec fn slot(k: int) -> int {
    16 * k
}

/// Index of the first slot at or after `k` whose first byte is 0 (the end of
/// the catalog), or 128.
pub open spec fn cat_end_from(s: Seq<u8>, k: int) -> int
    decreases 128 - k,
{
    if k >= 128 {
        128
    } else if s[slot(k)] == 0 {
        k
    } else {
        cat_end_from(s, k + 1)
    }
}

/// Number of catalog entries before the end-of-catalog marker.
pub open spec fn cat_len(s: Seq<u8>) -> int {
    cat_end_from(s, 0)
}

/// The catalog end found from slot `k` on lies between `k` and 128.
pub proof fn lemma_cat_end_from(s: Seq<u8>, k: int)
    requires
        0 <= k <= 128,
    ensures
        k <= cat_end_from(s, k) <= 128,
        k < 128 && s[slot(k)] != 0 ==> cat_end_from(s, k) == cat_end_from(s, k + 1),
        k < 128 && s[slot(k)] == 0 ==> cat_end_from(s, k) == k,
    decreases 128 - k,
{
    if k < 128 && s[slot(k)] != 0 {
        lemma_cat_end_from(s, k + 1);
    }
}

/// Extending a list of files whose views are the first `k` of `es` by the view
/// of `es[k]` gives the first `k + 1`.
pub proof fn lemma_views_push(prev: Seq<TrFile>, e: TrFile, es: Seq<TrFileView>, k: int)
    requires
        0 <= k < es.len(),
        views(prev) == es.take(k),
        e@ == es[k],
    ensures
        views(prev.push(e)) == es.take(k + 1),
{
    let out = prev.push(e);
    assert(views(prev).len() == prev.len());
    assert(prev.len() == k);
    assert(out.len() == k + 1);
    assert forall|i: int| 0 <= i < k + 1 implies #[trigger] views(out)[i] == es.take(k + 1)[i] by {
        if i < k {
            assert(out[i] == prev[i]);
            assert(views(prev)[i] == es.take(k)[i]);
        } else {
            assert(out[i] == e);
        }
    }
    assert(views(out) =~= es.take(k + 1));
}

/// `count` sectors read from logical sector `track * 16 + sector` on; bytes past
/// the end of the image read as zero.
pub open spec fn sectors_at(s: Seq<u8>, track: u8, sector: u8, count: u8) -> Seq<u8> {
    let start = (track * 16 + sector) * 256;
    Seq::new(
        (count * 256) as nat,
        |i: int|
            if start + i < s.len() {
                s[start + i]
            } else {
                0u8
            },
    )
}

/// The file catalog slot `k` describes, with its data.
pub open spec fn entry_at(s: Seq<u8>, k: int) -> TrFileView {
    let o = slot(k);
    TrFileView {
        name: s.subrange(o, o + 8),
        file_type: s[o + 8],
        start: u16_at(s, o + 9),
        length: u16_at(s, o + 11),
        sectors: s[o + 13],
        deleted: s[o] == 1,
        data: sectors_at(s, s[o + 15], s[o + 14], s[o + 13]),
    }
}

/// All catalog entries of an image, live and deleted, in slot order.
pub open spec fn trd_entries(s: Seq<u8>) -> Seq<TrFileView> {
    Seq::new(cat_len(s) as nat, |k: int| entry_at(s, k))
}

/// The free-sector count of the info sector.
pub open spec fn free_count(s: Seq<u8>) -> u16 {
    u16_at(s, OFF_FREE_SECTORS as int)
}

/// The first free logical sector (`track * 16 + sector`).
pub open spec fn free_lin(s: Seq<u8>) -> int {
    s[OFF_FIRST_FREE_TRACK as int] * 16 + s[OFF_FIRST_FREE_SECTOR as int]
}

/// The 16-byte catalog record of a file added with `need` sectors at
/// (`track`, `sector`).
pub open spec fn entry_record(f: TrFileView, need: int, sector: u8, track: u8) -> Seq<u8> {
    fix_first(f.name) + seq![f.file_type] + le16(f.start) + le16(f.length) + seq![
        need as u8,
        sector,
        track,
    ]
}

/// The image after the catalog record for `f` is written (after growing to fit
/// its data).
pub open spec fn add_stage1(s: Seq<u8>, f: TrFileView) -> Seq<u8> {
    let need = ceil_sectors(f.data.len() as int);
    let lin = free_lin(s);
    let g = grown(s, (lin + need) * 256);
    splice(
        g,
        slot(s[OFF_NUM_FILES as int] as int),
        entry_record(
            f,
            need,
            s[OFF_FIRST_FREE_SECTOR as int],
            s[OFF_FIRST_FREE_TRACK as int],
        ),
    )
}

/// The image after the data of `f` is also written, sector-padded.
pub open spec fn add_stage2(s: Seq<u8>, f: TrFileView) -> Seq<u8> {
    let need = ceil_sectors(f.data.len() as int);
    splice(add_stage1(s, f), free_lin(s) * 256, fit(f.data, need * 256))
}

/// The image bytes after `f` is appended: catalog record, data from the free
/// pointer on, then the info sector (free pointer advanced by the sectors used,
/// free count reduced by them modulo 0x10000, file count + 1) and a fresh
/// end-of-catalog marker after the new record.
pub open spec fn trd_add_bytes(s: Seq<u8>, f: TrFileView) -> Seq<u8> {
    let need = ceil_sectors(f.data.len() as int);
    let num = s[OFF_NUM_FILES as int] as int;
    let s2 = add_stage2(s, f);
    let new_lin = free_lin(s) + need;
    let free = (free_count(s2) - need) % 0x10000;
    let s3 = s2.update(OFF_FIRST_FREE_SECTOR as int, (new_lin % 16) as u8).update(
        OFF_FIRST_FREE_TRACK as int,
        (new_lin / 16) as u8,
    ).update(OFF_FREE_SECTORS as int, (free % 256) as u8).update(
        OFF_FREE_SECTORS + 1,
        (free / 256) as u8,
    ).update(OFF_NUM_FILES as int, (num + 1) as u8);
    if num + 1 < 128 {
        s3.update(slot(num + 1), 0u8)
    } else {
        s3
    }
}

/// Outcome of adding `f`: too big (over 255 sectors), catalog full (128
/// files), not enough free sectors, or the new image.
pub open spec fn trd_add(s: Seq<u8>, f: TrFileView) -> Result<Seq<u8>, Error> {
    if f.data.len() > 255 * 256 {
        Err(Error::FileTooBig)
    } else if s[OFF_NUM_FILES as int] >= 128 {
        Err(Error::TooManyFiles)
    } else if ceil_sectors(f.data.len() as int) > free_count(s) {
        Err(Error::DiskFull)
    } else {
        Ok(trd_add_bytes(s, f))
    }
}

/// What name matching sees of slot `k`: name, type and start address.
pub open spec fn slot_probe(s: Seq<u8>, k: int) -> TrFileView {
    let o = slot(k);
    TrFileView {
        name: s.subrange(o, o + 8),
        file_type: s[o + 8],
        start: u16_at(s, o + 9),
        length: 0,
        sectors: 0,
        deleted: false,
        data: Seq::<u8>::empty(),
    }
}

/// Slot `k` holds a live file named `target` in `mode`.
pub open spec fn live_named(s: Seq<u8>, k: int, target: Seq<char>, mode: ExtMode) -> bool {
    s[slot(k)] != 1 && names_file(slot_probe(s, k), target, mode)
}

/// First catalog slot at or after `k` holding a live file named `target`, or -1.
pub open spec fn first_named_from(s: Seq<u8>, k: int, target: Seq<char>, mode: ExtMode) -> int
    decreases 128 - k,
{
    if k >= cat_len(s) || k >= 128 {
        -1
    } else if live_named(s, k, target, mode) {
        k
    } else {
        first_named_from(s, k + 1, target, mode)
    }
}

/// First catalog slot holding a live file named `target`, or -1.
pub open spec fn first_named(s: Seq<u8>, target: Seq<char>, mode: ExtMode) -> int {
    first_named_from(s, 0, target, mode)
}

/// The image after slot `m` is erased the TR-DOS way: first name byte 0x01 and
/// the deleted counter + 1 (mod 256); the data stays.
pub open spec fn trd_erase_bytes(s: Seq<u8>, m: int) -> Seq<u8> {
    s.update(slot(m), 1u8).update(
        OFF_DELETED_COUNT as int,
        ((s[OFF_DELETED_COUNT as int] + 1) % 256) as u8,
    )
}

/// The image after slot `m` is renamed to the host name with bytes `new_bs`:
/// new name (marker first byte turned into `_`) and type; a 3-char extension
/// also sets the start address.
pub open spec fn trd_rename_bytes(s: Seq<u8>, m: int, new_bs: Seq<u8>) -> Seq<u8> {
    let (nn, nt, ns) = split_name_type_spec(new_bs);
    let s1 = splice(s, slot(m), fix_first(nn)).update(slot(m) + 8, nt);
    match ns {
        Some(a) => s1.update(slot(m) + 9, (a % 256) as u8).update(slot(m) + 10, (a / 256) as u8),
        None => s1,
    }
}

/// A freshly formatted disk: all zeros, free pointer at track 1 sector 0, the
/// type byte, no files, `(tracks - 1) * 16` free sectors, the TR-DOS id, no
/// deleted files, and the label (first 8 bytes, space-padded).
pub open spec fn trd_blank(dt: DiskType, label: Seq<u8>) -> Seq<u8> {
    let free = ((tracks_of(dt) - 1) * 16) as u16;
    splice(
        zeros(size_of_disk(dt)).update(OFF_FIRST_FREE_TRACK as int, 1u8).update(
            OFF_DISK_TYPE as int,
            disk_type_byte(dt),
        ).update(OFF_FREE_SECTORS as int, (free % 256) as u8).update(
            OFF_FREE_SECTORS + 1,
            (free / 256) as u8,
        ).update(OFF_TRDOS_ID as int, TRDOS_ID),
        OFF_LABEL as int,
        name8(label),
    )
}

/// Outcome of reading `b` as a TRD: it must hold the info sector, the TR-DOS id
/// and a known disk type; a short (truncated) image is zero-padded to its
/// nominal size.
pub open spec fn trd_open(b: Seq<u8>) -> Result<(DiskType, Seq<u8>), Error> {
    if b.len() < MIN_IMAGE_LEN {
        Err(Error::UnknownFormat)
    } else if b[OFF_TRDOS_ID as int] != TRDOS_ID {
        Err(Error::UnknownFormat)
    } else {
        match disk_type_of(b[OFF_DISK_TYPE as int]) {
            Some(dt) => Ok((dt, grown(b, size_of_disk(dt)))),
            None => Err(Error::UnknownFormat),
        }
    }
}

/// The disk label: the 8 label bytes decoded as UTF-8 (lossily), trailing
/// whitespace removed.
pub open spec fn trd_label(s: Seq<u8>) -> Seq<char> {
    trim_end(spec_utf8_lossy(s.subrange(OFF_LABEL as int, OFF_LABEL + 8)))
}

/// An in-memory TR-DOS disk image. The bytes always hold at least the catalog
/// and the info sector; images read or created are padded to the nominal size
/// of their disk type, so that offset arithmetic never runs past the end.
pub struct TrdImage {
    pub disk_type: DiskType,
    data: Vec<u8>,
}

/// The content of a [`TrdImage`]: its geometry and its bytes.
pub ghost struct TrdView {
    pub disk_type: DiskType,
    pub bytes: Seq<u8>,
}

impl View for TrdImage {
    type V = TrdView;

    closed spec fn view(&self) -> TrdView {
        TrdView { disk_type: self.disk_type, bytes: self.data@ }
    }
}

impl TrdImage {
    /// The image holds at least the catalog and the info sector.
    pub open spec fn wf(&self) -> bool {
        self@.bytes.len() >= MIN_IMAGE_LEN
    }

    /// Create a freshly formatted, empty disk.
    pub fn blank(disk_type: DiskType, label: &str) -> (r: TrdImage)
        ensures
            r.wf(),
            r@.disk_type == disk_type,
            r@.bytes == trd_blank(disk_type, label.spec_bytes()),
    {
        let size = disk_type.size();
        let mut data: Vec<u8> = Vec::new();
        grow(&mut data, size);
        assert(data@ =~= zeros(size as int));
        data[OFF_FIRST_FREE_SECTOR] = 0;
        data[OFF_FIRST_FREE_TRACK] = 1;
        data[OFF_DISK_TYPE] = disk_type.to_byte();
        data[OFF_NUM_FILES] = 0;
        let free: u16 = ((disk_type.tracks() - 1) * TRACK_SECTORS) as u16;
        data[OFF_FREE_SECTORS] = (free % 256) as u8;
        data[OFF_FREE_SECTORS + 1] = (free / 256) as u8;
        data[OFF_TRDOS_ID] = TRDOS_ID;
        data[OFF_DELETED_COUNT] = 0;
        let ghost pre = data@;
        let lb = label.as_bytes();
        let mut name: Vec<u8> = Vec::new();
        let mut i: usize = 0;
        while i < 8
            invariant
                i <= 8,
                lb@ == label.spec_bytes(),
                name@ == name8(lb@).take(i as int),
            decreases 8 - i,
        {
            let b = if i < lb.len() { lb[i] } else { 32u8 };
            name.push(b);
            i = i + 1;
            assert(name@ =~= name8(lb@).take(i as int));
        }
        assert(name@ =~= name8(lb@));
        write_at(&mut data, OFF_LABEL, &name);
        assert(pre =~= zeros(size_of_disk(disk_type)).update(OFF_FIRST_FREE_TRACK as int, 1u8).update(
            OFF_DISK_TYPE as int,
            disk_type_byte(disk_type),
        ).update(OFF_FREE_SECTORS as int, (free % 256) as u8).update(
            OFF_FREE_SECTORS + 1,
            (free / 256) as u8,
        ).update(OFF_TRDOS_ID as int, TRDOS_ID));
        TrdImage { disk_type, data }
    }

    /// Parse an existing image. Truncated images (trailing empty tracks chopped
    /// off) are accepted and zero-padded back to full size.
    pub fn from_bytes(bytes: &[u8]) -> (r: Result<TrdImage, Error>)
        ensures
            match trd_open(bytes@) {
                Ok((dt, s)) => r matches Ok(img) && img@.disk_type == dt && img@.bytes == s && img.wf(),
                Err(e) => r == Err::<TrdImage, Error>(e),
            },
    {
        if bytes.len() < MIN_IMAGE_LEN {
            return Err(Error::UnknownFormat);
        }
        if bytes[OFF_TRDOS_ID] != TRDOS_ID {
            return Err(Error::UnknownFormat);
        }
        let disk_type = match DiskType::from_byte(bytes[OFF_DISK_TYPE]) {
            Some(dt) => dt,
            None => {
                return Err(Error::UnknownFormat);
            },
        };
        let mut data = slice_bytes(bytes);
        grow(&mut data, disk_type.size());
        Ok(TrdImage { disk_type, data })
    }

    /// The disk label, trailing whitespace trimmed. A label that is valid
    /// UTF-8 (ASCII among it) reads as its text.
    pub fn label(&self) -> (r: String)
        requires
            self.wf(),
        ensures
            r@ == trd_label(self@.bytes),
            valid_utf8(self@.bytes.subrange(OFF_LABEL as int, OFF_LABEL + 8)) ==> r@ == trim_end(
                decode_utf8(self@.bytes.subrange(OFF_LABEL as int, OFF_LABEL + 8)),
            ),
    {
        let mut raw: Vec<u8> = Vec::new();
        let mut i: usize = 0;
        while i < 8
            invariant
                i <= 8,
                self.data@.len() >= MIN_IMAGE_LEN,
                raw@ == self.data@.subrange(OFF_LABEL as int, OFF_LABEL + i),
            decreases 8 - i,
        {
            raw.push(self.data[OFF_LABEL + i]);
            i = i + 1;
            assert(raw@ =~= self.data@.subrange(OFF_LABEL as int, OFF_LABEL + i));
        }
        let decoded = utf8_lossy(raw.as_slice());
        let cs = chars_of(decoded.as_str());
        let (_lo, hi) = trim_bounds(&cs);
        let kept = decoded.as_str().substring_char(0, hi);
        assert(kept@ =~= trim_end(decoded@));
        String::from_str(kept)
    }

    /// The file count recorded in the info sector.
    pub fn num_files(&self) -> (r: u8)
        requires
            self.wf(),
        ensures
            r == self@.bytes[OFF_NUM_FILES as int],
    {
        self.data[OFF_NUM_FILES]
    }

    /// The free-sector count recorded in the info sector.
    pub fn free_sectors(&self) -> (r: u16)
        requires
            self.wf(),
        ensures
            r == free_count(self@.bytes),
    {
        read_u16(&self.data, OFF_FREE_SECTORS)
    }

    fn read_sectors(&self, track: u8, sector: u8, count: u8) -> (r: Vec<u8>)
        ensures
            r@ == sectors_at(self@.bytes, track, sector, count),
    {
        let start = (track as usize * TRACK_SECTORS + sector as usize) * 256;
        let len = count as usize * 256;
        let dl = self.data.len();
        let mut out: Vec<u8> = Vec::new();
        let mut i: usize = 0;
        while i < len
            invariant
                i <= len,
                len == count * 256,
                start == (track * 16 + sector) * 256,
                dl == self.data@.len(),
                out@ == sectors_at(self@.bytes, track, sector, count).take(i as int),
            decreases len - i,
        {
            let b = if start + i < dl { self.data[start + i] } else { 0u8 };
            out.push(b);
            i = i + 1;
            assert(out@ =~= sectors_at(self@.bytes, track, sector, count).take(i as int));
        }
        assert(sectors_at(self@.bytes, track, sector, count).take(len as int) =~= sectors_at(
            self@.bytes,
            track,
            sector,
            count,
        ));
        out
    }

    fn entry(&self, k: usize) -> (r: TrFile)
        requires
            self.wf(),
            k < 128,
        ensures
            r@ == entry_at(self@.bytes, k as int),
    {
        let o = k * ENTRY_SIZE;
        let mut name: [u8; 8] = [0u8; 8];
        let mut i: usize = 0;
        while i < 8
            invariant
                i <= 8,
                o == 16 * k,
                k < 128,
                self.data@.len() >= MIN_IMAGE_LEN,
                forall|j: int| 0 <= j < i ==> name@[j] == self.data@[o + j],
            decreases 8 - i,
        {
            name[i] = self.data[o + i];
            i = i + 1;
        }
        assert(name@ =~= self@.bytes.subrange(o as int, o + 8));
        let sectors = self.data[o + 13];
        let data = self.read_sectors(self.data[o + 15], self.data[o + 14], sectors);
        TrFile {
            name,
            file_type: self.data[o + 8],
            start: read_u16(&self.data, o + 9),
            length: read_u16(&self.data, o + 11),
            sectors,
            deleted: self.data[o] == 1,
            data,
        }
    }

    /// All catalog entries up to the end-of-catalog terminator, both live and
    /// deleted, in slot order, each with its data attached.
    pub fn entries(&self) -> (r: Vec<TrFile>)
        requires
            self.wf(),
        ensures
            views(r@) == trd_entries(self@.bytes),
    {
        let mut out: Vec<TrFile> = Vec::new();
        let mut k: usize = 0;
        while k < CATALOG_ENTRIES
            invariant_except_break
                k <= 128,
                self.wf(),
                cat_end_from(self@.bytes, k as int) == cat_len(self@.bytes),
                views(out@) == trd_entries(self@.bytes).take(k as int),
            ensures
                views(out@) == trd_entries(self@.bytes),
            decreases 128 - k,
        {
            proof {
                lemma_cat_end_from(self@.bytes, k as int);
            }
            if self.data[k * ENTRY_SIZE] == 0 {
                assert(trd_entries(self@.bytes).take(k as int) =~= trd_entries(self@.bytes));
                break;
            }
            proof {
                lemma_cat_end_from(self@.bytes, k + 1);
            }
            let e = self.entry(k);
            let ghost prev = out@;
            out.push(e);
            proof {
                lemma_views_push(prev, e, trd_entries(self@.bytes), k as int);
            }
            k = k + 1;
            assert(views(out@) =~= trd_entries(self@.bytes).take(k as int));
            if k == CATALOG_ENTRIES {
                assert(trd_entries(self@.bytes).take(k as int) =~= trd_entries(self@.bytes));
            }
        }
        out
    }

    /// Append a new file to the catalog, allocating contiguous sectors forward
    /// from the free pointer (the way TR-DOS itself does - no fragmentation). The
    /// catalog byte-length supplied by the caller is kept as given.
    pub fn add_file(&mut self, file: &TrFile) -> (r: Result<(), Error>)
        requires
            old(self).wf(),
        ensures
            final(self).wf(),
            final(self)@.disk_type == old(self)@.disk_type,
            match trd_add(old(self)@.bytes, file@) {
                Ok(s) => r is Ok && final(self)@.bytes == s,
                Err(e) => r == Err::<(), Error>(e) && final(self)@.bytes == old(self)@.bytes,
            },
    {
        let ghost s = self@.bytes;
        let ghost f = file@;
        let n = file.data.len();
        if n > 255 * 256 {
            return Err(Error::FileTooBig);
        }
        let need = (n + 255) / 256;
        let num = self.data[OFF_NUM_FILES] as usize;
        if num >= CATALOG_ENTRIES {
            return Err(Error::TooManyFiles);
        }
        if need > self.free_sectors() as usize {
            return Err(Error::DiskFull);
        }
        self.append(file, need, num);
        Ok(())
    }

    /// Write `file` at the free pointer as catalog entry `num`, using `need`
    /// sectors, and update the info sector.
    #[verifier::rlimit(40)]
    fn append(&mut self, file: &TrFile, need: usize, num: usize)
        requires
            old(self).wf(),
            file@.data.len() <= 255 * 256,
            need == ceil_sectors(file@.data.len() as int),
            num == old(self)@.bytes[OFF_NUM_FILES as int],
            num < 128,
        ensures
            final(self)@.disk_type == old(self)@.disk_type,
            final(self)@.bytes == trd_add_bytes(old(self)@.bytes, file@),
            final(self).wf(),
    {
        let ghost s = self@.bytes;
        let ghost f = file@;
        let sector = self.data[OFF_FIRST_FREE_SECTOR];
        let track = self.data[OFF_FIRST_FREE_TRACK];
        let lin = track as usize * TRACK_SECTORS + sector as usize;
        let byte_off = lin * 256;
        let end = byte_off + need * 256;
        grow(&mut self.data, end);
        // Directory entry.
        let mut rec: Vec<u8> = Vec::new();
        let mut i: usize = 0;
        while i < 8
            invariant
                i <= 8,
                f == file@,
                f.name.len() == 8,
                rec@ == fix_first(f.name).take(i as int),
            decreases 8 - i,
        {
            let mut b = file.name[i];
            if i == 0 && (b == 0 || b == 1) {
                b = 95;
            }
            rec.push(b);
            i = i + 1;
            assert(rec@ =~= fix_first(f.name).take(i as int));
        }
        rec.push(file.file_type);
        rec.push((file.start % 256) as u8);
        rec.push((file.start / 256) as u8);
        rec.push((file.length % 256) as u8);
        rec.push((file.length / 256) as u8);
        rec.push(need as u8);
        rec.push(sector);
        rec.push(track);
        assert(rec@ =~= entry_record(f, need as int, sector, track));
        write_at(&mut self.data, num * ENTRY_SIZE, &rec);
        assert(self@.bytes == add_stage1(s, f));
        // File data (padded to a whole sector).
        let padded = fit_vec(&file.data, need * 256);
        write_at(&mut self.data, byte_off, &padded);
        assert(self@.bytes == add_stage2(s, f));
        // Update the info sector.
        let new_lin = lin + need;
        self.data[OFF_FIRST_FREE_SECTOR] = (new_lin % TRACK_SECTORS) as u8;
        self.data[OFF_FIRST_FREE_TRACK] = (new_lin / TRACK_SECTORS) as u8;
        let cur = read_u16(&self.data, OFF_FREE_SECTORS) as u32;
        assert(cur == free_count(add_stage2(s, f)));
        let free: u32 = if cur >= need as u32 { cur - need as u32 } else { cur + 0x10000 - need as u32 };
        assert(free == (free_count(add_stage2(s, f)) - need) % 0x10000);
        self.data[OFF_FREE_SECTORS] = (free % 256) as u8;
        self.data[OFF_FREE_SECTORS + 1] = (free / 256) as u8;
        self.data[OFF_NUM_FILES] = (num + 1) as u8;
        if num + 1 < CATALOG_ENTRIES {
            self.data[(num + 1) * ENTRY_SIZE] = 0;  // keep terminator
        }
        assert(self@.bytes =~= trd_add_bytes(s, f));
    }


    fn probe(&self, k: usize) -> (r: TrFile)
        requires
            self.wf(),
            k < 128,
        ensures
            r@ == slot_probe(self@.bytes, k as int),
    {
        let o = k * ENTRY_SIZE;
        let mut name: [u8; 8] = [0u8; 8];
        let mut i: usize = 0;
        while i < 8
            invariant
                i <= 8,
                o == 16 * k,
                k < 128,
                self.data@.len() >= MIN_IMAGE_LEN,
                forall|j: int| 0 <= j < i ==> name@[j] == self.data@[o + j],
            decreases 8 - i,
        {
            name[i] = self.data[o + i];
            i = i + 1;
        }
        assert(name@ =~= self@.bytes.subrange(o as int, o + 8));
        let r = TrFile {
            name,
            file_type: self.data[o + 8],
            start: read_u16(&self.data, o + 9),
            length: 0,
            sectors: 0,
            deleted: false,
            data: Vec::new(),
        };
        assert(r@.data =~= Seq::<u8>::empty());
        r
    }

    /// First catalog slot holding a live file named `target` in `mode`.
    fn find_live(&self, target: &String, mode: ExtMode) -> (r: Option<usize>)
        requires
            self.wf(),
        ensures
            match r {
                Some(k) => k < cat_len(self@.bytes) && k < 128 && k as int == first_named(
                    self@.bytes,
                    target@,
                    mode,
                ),
                None => first_named(self@.bytes, target@, mode) == -1,
            },
    {
        proof {
            lemma_cat_end_from(self@.bytes, 0);
        }
        let mut k: usize = 0;
        while k < CATALOG_ENTRIES
            invariant
                k <= 128,
                self.wf(),
                cat_len(self@.bytes) <= 128,
                cat_end_from(self@.bytes, k as int) == cat_len(self@.bytes),
                k <= cat_len(self@.bytes),
                first_named_from(self@.bytes, k as int, target@, mode) == first_named(
                    self@.bytes,
                    target@,
                    mode,
                ),
            decreases 128 - k,
        {
            let b0 = self.data[k * ENTRY_SIZE];
            proof {
                lemma_cat_end_from(self@.bytes, k as int);
                lemma_cat_end_from(self@.bytes, k + 1);
            }
            if b0 == 0 {
                return None;
            }
            if b0 != 1 {
                let p = self.probe(k);
                if p.is_named(target, mode) {
                    return Some(k);
                }
            }
            k = k + 1;
        }
        None
    }

    /// Mark the first live file whose display name (in `mode`) or hobeta name is
    /// `target` as deleted, exactly as TR-DOS ERASE does: set name[0] = 0x01,
    /// bump the deleted counter, leave the data untouched (so it stays
    /// recoverable). Returns whether a match was found.
    pub fn mark_deleted_with(&mut self, target: &str, mode: ExtMode) -> (found: bool)
        requires
            old(self).wf(),
        ensures
            final(self).wf(),
            final(self)@.disk_type == old(self)@.disk_type,
            found == (first_named(old(self)@.bytes, target@, mode) >= 0),
            found ==> final(self)@.bytes == trd_erase_bytes(
                old(self)@.bytes,
                first_named(old(self)@.bytes, target@, mode),
            ),
            !found ==> final(self)@.bytes == old(self)@.bytes,
    {
        let t = String::from_str(target);
        match self.find_live(&t, mode) {
            Some(k) => {
                self.data[k * ENTRY_SIZE] = 1;
                let d = self.data[OFF_DELETED_COUNT];
                self.data[OFF_DELETED_COUNT] = if d == 255 {
                    0
                } else {
                    d + 1
                };
                true
            },
            None => false,
        }
    }

    /// [`TrdImage::mark_deleted_with`] in the library's default mode, [`ExtMode::Smart`].
    pub fn mark_deleted(&mut self, target: &str) -> (found: bool)
        requires
            old(self).wf(),
        ensures
            final(self).wf(),
            final(self)@.disk_type == old(self)@.disk_type,
            found == (first_named(old(self)@.bytes, target@, ExtMode::Smart) >= 0),
            found ==> final(self)@.bytes == trd_erase_bytes(
                old(self)@.bytes,
                first_named(old(self)@.bytes, target@, ExtMode::Smart),
            ),
            !found ==> final(self)@.bytes == old(self)@.bytes,
    {
        self.mark_deleted_with(target, ExtMode::Smart)
    }

    /// Write the new name and type (and, for a 3-char extension, start address)
    /// into slot `k`.
    fn rename_slot(&mut self, k: usize, new_basename: &str)
        requires
            old(self).wf(),
            k < 128,
        ensures
            final(self).wf(),
            final(self)@.disk_type == old(self)@.disk_type,
            final(self)@.bytes == trd_rename_bytes(
                old(self)@.bytes,
                k as int,
                new_basename.spec_bytes(),
            ),
    {
        let o = k * ENTRY_SIZE;
        let (nn, nt, ns) = TrFile::split_name_type(new_basename);
        let mut rec: Vec<u8> = Vec::new();
        let mut i: usize = 0;
        while i < 8
            invariant
                i <= 8,
                rec@ == fix_first(nn@).take(i as int),
            decreases 8 - i,
        {
            let mut b = nn[i];
            if i == 0 && (b == 0 || b == 1) {
                b = 95;
            }
            rec.push(b);
            i = i + 1;
            assert(rec@ =~= fix_first(nn@).take(i as int));
        }
        write_at(&mut self.data, o, &rec);
        self.data[o + 8] = nt;
        // A 3-char extension also sets the two address bytes; a 1-char
        // extension leaves the load address untouched.
        if let Some(a) = ns {
            self.data[o + 9] = (a % 256) as u8;
            self.data[o + 10] = (a / 256) as u8;
        }
    }

    /// Rename the first live file whose display name (in `mode`) or hobeta name
    /// is `target` to `new_basename` (e.g. `"NEWNAME.C"`). Updates the 8-char
    /// name and the type letter in the catalog entry; a 3-char extension also
    /// sets the two address bytes. Data and geometry are unchanged. Returns
    /// whether a match was found.
    pub fn rename_with(&mut self, target: &str, new_basename: &str, mode: ExtMode) -> (found:
        bool)
        requires
            old(self).wf(),
        ensures
            final(self).wf(),
            final(self)@.disk_type == old(self)@.disk_type,
            found == (first_named(old(self)@.bytes, target@, mode) >= 0),
            found ==> final(self)@.bytes == trd_rename_bytes(
                old(self)@.bytes,
                first_named(old(self)@.bytes, target@, mode),
                new_basename.spec_bytes(),
            ),
            !found ==> final(self)@.bytes == old(self)@.bytes,
    {
        let t = String::from_str(target);
        match self.find_live(&t, mode) {
            Some(k) => {
                self.rename_slot(k, new_basename);
                true
            },
            None => false,
        }
    }

    /// [`TrdImage::rename_with`] in the library's default mode, [`ExtMode::Smart`].
    pub fn rename(&mut self, target: &str, new_basename: &str) -> (found: bool)
        requires
            old(self).wf(),
        ensures
            final(self).wf(),
            final(self)@.disk_type == old(self)@.disk_type,
            found == (first_named(old(self)@.bytes, target@, ExtMode::Smart) >= 0),
            found ==> final(self)@.bytes == trd_rename_bytes(
                old(self)@.bytes,
                first_named(old(self)@.bytes, target@, ExtMode::Smart),
                new_basename.spec_bytes(),
            ),
            !found ==> final(self)@.bytes == old(self)@.bytes,
    {
        self.rename_with(target, new_basename, ExtMode::Smart)
    }

    /// The full image bytes.
    pub fn to_bytes(&self) -> (r: Vec<u8>)
        ensures
            r@ == self@.bytes,
    {
        copy_bytes(&self.data)
    }
}

} // verus!
