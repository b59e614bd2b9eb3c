//! A single TR-DOS file plus its data, shared by the TRD and SCL models, and how
//! its name is shown and parsed.
use vstd::prelude::*;
use vstd::string::StringSliceAdditionalSpecFns;
use crate::bytes::{copy_bytes, push_all};
use crate::text::{ascii_chars, ascii_string, chars_eq, is_ascii_bytes, normalize, normalized};

verus! {

/// Length of a TR-DOS filename field, in bytes.
pub const NAME_LEN: usize = 8;
/// Size of one disk sector, in bytes.
pub const SECTOR_SIZE: usize = 256;
/// Largest file TR-DOS can hold: 255 sectors.
pub const MAX_SECTORS: usize = 255;

/// One catalog entry with its file data attached.
///
/// `name` holds the raw 8 bytes as stored on disk. For a deleted TRD entry the
/// first byte on disk is `0x01`; that is reflected in `deleted` and the original
/// first character is lost (rendered as `_` by [`TrFile::display_name`]).
#[derive(Clone, Debug, PartialEq, Eq)]
pub struct TrFile {
    pub name: [u8; NAME_LEN],
    /// TR-DOS type letter, e.g. `b'B'`, `b'C'`, `b'D'`, `b'#'`.
    pub file_type: u8,
    /// Start address / type-specific parameter (dir bytes 0x09..0x0B).
    pub start: u16,
    /// Length in bytes as recorded in the catalog (dir bytes 0x0B..0x0D).
    pub length: u16,
    /// Length in 256-byte sectors (dir byte 0x0D).
    pub sectors: u8,
    /// True if this entry was marked deleted on a TRD (name[0] == 0x01).
    pub deleted: bool,
    /// Raw file data, padded to a whole number of sectors (`sectors * 256`).
    pub data: Vec<u8>,
}

/// The mathematical content of a [`TrFile`].
pub ghost struct TrFileView {
    pub name: Seq<u8>,
    pub file_type: u8,
    pub start: u16,
    pub length: u16,
    pub sectors: u8,
    pub deleted: bool,
    pub data: Seq<u8>,
}

impl View for TrFile {
    type V = TrFileView;

    open spec fn view(&self) -> TrFileView {
        TrFileView {
            name: self.name@,
            file_type: self.file_type,
            start: self.start,
            length: self.length,
            sectors: self.sectors,
            deleted: self.deleted,
            data: self.data@,
        }
    }
}

/// The views of a list of files.
pub open spec fn views(v: Seq<TrFile>) -> Seq<TrFileView> {
    v.map_values(|f: TrFile| f@)
}

/// The file a host file name (its basename bytes) and contents become: name
/// and type (and start address, else 0) from the name, the data as is.
pub open spec fn host_file(basename: Seq<u8>, data: Seq<u8>) -> TrFileView {
    let (n, t, s) = split_name_type_spec(basename);
    TrFileView {
        name: n,
        file_type: t,
        start: match s {
            Some(a) => a,
            None => 0u16,
        },
        length: if data.len() > 65535 {
            65535u16
        } else {
            data.len() as u16
        },
        sectors: if ceil_sectors(data.len() as int) > 255 {
            255u8
        } else {
            ceil_sectors(data.len() as int) as u8
        },
        deleted: false,
        data: data,
    }
}

/// How a file's extension is rendered and parsed (see [`TrFile::ext_string_with`]).
#[derive(Copy, Clone, Debug, PartialEq, Eq, Structural)]
pub enum ExtMode {
    /// Always a single-character extension; the 2 following bytes stay a hidden
    /// load address.
    Single,
    /// Always a three-character extension (type + the 2 following bytes).
    Triple,
    /// Three characters when both following bytes are printable ASCII, else one.
    Smart,
}

/// Number of 256-byte sectors needed to hold `n` bytes.
pub open spec fn ceil_sectors(n: int) -> int {
    (n + 255) / 256
}

/// A name whose first byte would read as the end-of-catalog (`0x00`) or deleted
/// (`0x01`) marker gets `_` there instead.
pub open spec fn fix_first(name: Seq<u8>) -> Seq<u8> {
    if name[0] == 0 || name[0] == 1 {
        name.update(0, 95u8)
    } else {
        name
    }
}

/// A byte shown in a name: printable ASCII as itself, anything else as `?`.
pub open spec fn printable(b: u8) -> u8 {
    if 0x20 <= b <= 0x7e {
        b
    } else {
        63u8
    }
}

/// `/`, `\` and `:` are unsafe in a path and become `_`.
pub open spec fn path_safe(b: u8) -> u8 {
    if b == 47 || b == 92 || b == 58 {
        95u8
    } else {
        b
    }
}

/// `s` without trailing spaces.
pub open spec fn trim_spaces(s: Seq<u8>) -> Seq<u8>
    decreases s.len(),
{
    if s.len() > 0 && s.last() == 32 {
        trim_spaces(s.drop_last())
    } else {
        s
    }
}

/// The shown name (no extension) of a file, as bytes.
pub open spec fn base_name_bytes(f: TrFileView) -> Seq<u8> {
    let raw = if f.deleted || f.name[0] == 0 || f.name[0] == 1 {
        f.name.update(0, 95u8)
    } else {
        f.name
    };
    let t = trim_spaces(raw.map_values(|b: u8| printable(b))).map_values(|b: u8| path_safe(b));
    if t.len() == 0 {
        seq![95u8]
    } else {
        t
    }
}

/// Upper-case hexadecimal digit for `d` < 16.
pub open spec fn hex_digit(d: u8) -> u8 {
    if d < 10 {
        (48 + d) as u8
    } else {
        (55 + d) as u8
    }
}

/// The type byte as an extension token: the character itself when printable
/// (path-safe), else its two hex digits.
pub open spec fn type_ext_bytes(t: u8) -> Seq<u8> {
    if 0x20 <= t <= 0x7e {
        seq![path_safe(t)]
    } else {
        seq![hex_digit(t / 16), hex_digit(t % 16)]
    }
}

/// A graphic (visible, non-space) ASCII byte.
pub open spec fn is_graphic(b: u8) -> bool {
    0x21 <= b <= 0x7e
}

/// One of the two "extension address" bytes as a filename character.
pub open spec fn ext_byte(b: u8) -> u8 {
    if b == 47 || b == 92 || b == 58 {
        95u8
    } else if is_graphic(b) {
        b
    } else {
        95u8
    }
}

/// A printable ASCII byte (the space included).
pub open spec fn is_printable(b: u8) -> bool {
    0x20 <= b <= 0x7e
}

/// Whether `mode` shows the two address bytes of a file starting at `start`:
/// `Smart` does when both are printable ASCII.
pub open spec fn shows_three(mode: ExtMode, start: u16) -> bool {
    match mode {
        ExtMode::Single => false,
        ExtMode::Triple => true,
        ExtMode::Smart => is_printable((start % 256) as u8) && is_printable((start / 256) as u8),
    }
}

/// The extension of a file in `mode`, as bytes.
pub open spec fn ext_bytes(f: TrFileView, mode: ExtMode) -> Seq<u8> {
    let base = type_ext_bytes(f.file_type);
    if base.len() != 1 {
        base
    } else if shows_three(mode, f.start) {
        base + seq![ext_byte((f.start % 256) as u8), ext_byte((f.start / 256) as u8)]
    } else {
        base
    }
}

/// `NAME.EXT` in `mode`, as bytes.
pub open spec fn display_name_bytes(f: TrFileView, mode: ExtMode) -> Seq<u8> {
    base_name_bytes(f) + seq![46u8] + ext_bytes(f, mode)
}

/// `NAME.$T`, the hobeta-style name, as bytes.
pub open spec fn hobeta_name_bytes(f: TrFileView) -> Seq<u8> {
    base_name_bytes(f) + seq![46u8, 36u8] + type_ext_bytes(f.file_type)
}

/// The display name of `f` in `mode`.
pub open spec fn display_name_of(f: TrFileView, mode: ExtMode) -> Seq<char> {
    ascii_chars(display_name_bytes(f, mode))
}

/// The hobeta name of `f`.
pub open spec fn hobeta_name_of(f: TrFileView) -> Seq<char> {
    ascii_chars(hobeta_name_bytes(f))
}

/// Whether `target` names `f`, by its display name in `mode` or its hobeta name.
pub open spec fn names_file(f: TrFileView, target: Seq<char>, mode: ExtMode) -> bool {
    display_name_of(f, mode) == target || hobeta_name_of(f) == target
}

/// Index of the last `.` in `bs`, or -1.
pub open spec fn last_dot(bs: Seq<u8>) -> int
    decreases bs.len(),
{
    if bs.len() == 0 {
        -1
    } else if bs.last() == 46 {
        bs.len() - 1
    } else {
        last_dot(bs.drop_last())
    }
}

/// Stem and extension of a host file name: split at the last `.` unless it is
/// the first or the last byte.
pub open spec fn stem_ext(bs: Seq<u8>) -> (Seq<u8>, Seq<u8>) {
    let i = last_dot(bs);
    if i > 0 && i + 1 < bs.len() {
        (bs.take(i), bs.skip(i + 1))
    } else {
        (bs, Seq::<u8>::empty())
    }
}

/// The 8-byte TR-DOS name for a stem: its first 8 bytes, space-padded.
pub open spec fn name8(stem: Seq<u8>) -> Seq<u8> {
    Seq::new(8, |i: int| if i < stem.len() { stem[i] } else { 32u8 })
}

/// Type and optional start address from an extension: 1 byte sets the type, 3
/// bytes the type and the two address bytes (little-endian), anything else is
/// type `C`.
pub open spec fn ext_type_start(ext: Seq<u8>) -> (u8, Option<u16>) {
    if ext.len() == 1 {
        (ext[0], None)
    } else if ext.len() == 3 {
        (ext[0], Some((ext[1] + 256 * ext[2]) as u16))
    } else {
        (67u8, None)
    }
}

/// What [`TrFile::split_name_type`] makes of the bytes of a host file name.
pub open spec fn split_name_type_spec(bs: Seq<u8>) -> (Seq<u8>, u8, Option<u16>) {
    let (stem, ext) = stem_ext(bs);
    let (t, s) = ext_type_start(ext);
    (name8(stem), t, s)
}

/// The setting words accepted for each [`ExtMode`], after trimming and
/// lower-casing.
pub open spec fn ext_mode_of(s: Seq<char>) -> Option<ExtMode> {
    let n = normalize(s);
    if n == "1"@ || n == "single"@ || n == "one"@ {
        Some(ExtMode::Single)
    } else if n == "3"@ || n == "triple"@ || n == "three"@ {
        Some(ExtMode::Triple)
    } else if n == "smart"@ || n == "auto"@ || n == "intelligent"@ {
        Some(ExtMode::Smart)
    } else {
        None
    }
}

proof fn lemma_trim_spaces_prefix(s: Seq<u8>)
    ensures
        trim_spaces(s).len() <= s.len(),
        trim_spaces(s) == s.take(trim_spaces(s).len() as int),
    decreases s.len(),
{
    if s.len() > 0 && s.last() == 32 {
        lemma_trim_spaces_prefix(s.drop_last());
        assert(s.drop_last().take(trim_spaces(s).len() as int) =~= s.take(
            trim_spaces(s).len() as int,
        ));
    } else {
        assert(s.take(s.len() as int) =~= s);
    }
}

proof fn lemma_trim_spaces_at(s: Seq<u8>, n: int)
    requires
        0 <= n <= s.len(),
        forall|i: int| n <= i < s.len() ==> #[trigger] s[i] == 32,
        n > 0 ==> s[n - 1] != 32,
    ensures
        trim_spaces(s) == s.take(n),
    decreases s.len(),
{
    if s.len() > n {
        assert(s.last() == 32);
        assert(s.drop_last().take(n) =~= s.take(n));
        lemma_trim_spaces_at(s.drop_last(), n);
    } else {
        assert(s.take(n) =~= s);
    }
}

proof fn lemma_base_name_ascii(f: TrFileView)
    requires
        f.name.len() == 8,
    ensures
        is_ascii_bytes(base_name_bytes(f)),
        base_name_bytes(f).len() >= 1,
        base_name_bytes(f).len() <= 8,
{
    let raw = if f.deleted || f.name[0] == 0 || f.name[0] == 1 {
        f.name.update(0, 95u8)
    } else {
        f.name
    };
    let m = raw.map_values(|b: u8| printable(b));
    lemma_trim_spaces_prefix(m);
    let t = trim_spaces(m);
    assert forall|i: int| 0 <= i < t.len() implies #[trigger] t[i] < 0x80 by {
        assert(t[i] == m[i]);
    }
}

proof fn lemma_type_ext_ascii(t: u8)
    ensures
        is_ascii_bytes(type_ext_bytes(t)),
        1 <= type_ext_bytes(t).len() <= 2,
{
}

proof fn lemma_display_name_ascii(f: TrFileView, mode: ExtMode)
    requires
        f.name.len() == 8,
    ensures
        is_ascii_bytes(display_name_bytes(f, mode)),
        is_ascii_bytes(hobeta_name_bytes(f)),
{
    lemma_base_name_ascii(f);
    lemma_type_ext_ascii(f.file_type);
    let d = display_name_bytes(f, mode);
    let b = base_name_bytes(f);
    let e = ext_bytes(f, mode);
    assert forall|i: int| 0 <= i < d.len() implies #[trigger] d[i] < 0x80 by {
        if i < b.len() {
            assert(d[i] == b[i]);
        } else if i == b.len() {
        } else {
            assert(d[i] == e[i - b.len() - 1]);
        }
    }
    let h = hobeta_name_bytes(f);
    let te = type_ext_bytes(f.file_type);
    assert forall|i: int| 0 <= i < h.len() implies #[trigger] h[i] < 0x80 by {
        if i < b.len() {
            assert(h[i] == b[i]);
        } else if i <= b.len() + 1 {
        } else {
            assert(h[i] == te[i - b.len() - 2]);
        }
    }
}

fn printable_byte(b: u8) -> (r: u8)
    ensures
        r == printable(b),
{
    if 0x20 <= b && b <= 0x7e {
        b
    } else {
        63
    }
}

fn path_safe_byte(b: u8) -> (r: u8)
    ensures
        r == path_safe(b),
{
    if b == 47 || b == 92 || b == 58 {
        95
    } else {
        b
    }
}

fn hex_digit_byte(d: u8) -> (r: u8)
    requires
        d < 16,
    ensures
        r == hex_digit(d),
{
    if d < 10 {
        48 + d
    } else {
        55 + d
    }
}

fn ext_byte_of(b: u8) -> (r: u8)
    ensures
        r == ext_byte(b),
{
    if b == 47 || b == 92 || b == 58 {
        95
    } else if 0x21 <= b && b <= 0x7e {
        b
    } else {
        95
    }
}

impl TrFile {
    /// Build a fresh (non-deleted) file from a name, type, start address and data.
    /// `sectors`/`length` are derived from `data` (capped at 255 and 65535).
    pub fn new(name: [u8; NAME_LEN], file_type: u8, start: u16, data: Vec<u8>) -> (f: TrFile)
        ensures
            f@ == (TrFileView {
                name: name@,
                file_type,
                start,
                length: if data@.len() > 65535 { 65535u16 } else { data@.len() as u16 },
                sectors: if ceil_sectors(data@.len() as int) > 255 {
                    255u8
                } else {
                    ceil_sectors(data@.len() as int) as u8
                },
                deleted: false,
                data: data@,
            }),
    {
        let n = data.len();
        let need = n / SECTOR_SIZE + if n % SECTOR_SIZE != 0 { 1usize } else { 0usize };
        let sectors: u8 = if need > MAX_SECTORS { 255 } else { need as u8 };
        let length: u16 = if n > 65535 { 65535 } else { n as u16 };
        TrFile { name, file_type, start, length, sectors, deleted: false, data }
    }

    /// A copy of this file.
    pub fn duplicate(&self) -> (r: TrFile)
        ensures
            r@ == self@,
    {
        TrFile {
            name: self.name,
            file_type: self.file_type,
            start: self.start,
            length: self.length,
            sectors: self.sectors,
            deleted: self.deleted,
            data: copy_bytes(&self.data),
        }
    }

    fn base_name_vec(&self) -> (v: Vec<u8>)
        ensures
            v@ == base_name_bytes(self@),
    {
        let ghost f = self@;
        let ghost raw = if f.deleted || f.name[0] == 0 || f.name[0] == 1 {
            f.name.update(0, 95u8)
        } else {
            f.name
        };
        let ghost m = raw.map_values(|b: u8| printable(b));
        let mut mapped: Vec<u8> = Vec::new();
        let mut i: usize = 0;
        while i < NAME_LEN
            invariant
                i <= 8,
                f == self@,
                f.name.len() == 8,
                m.len() == 8,
                raw.len() == 8,
                m == raw.map_values(|b: u8| printable(b)),
                raw == (if f.deleted || f.name[0] == 0 || f.name[0] == 1 {
                    f.name.update(0, 95u8)
                } else {
                    f.name
                }),
                mapped@ == m.take(i as int),
            decreases 8 - i,
        {
            let mut b = self.name[i];
            if i == 0 && (self.deleted || b == 0 || b == 1) {
                b = 95;
            }
            assert(b == raw[i as int]);
            mapped.push(printable_byte(b));
            i = i + 1;
            assert(mapped@ =~= m.take(i as int));
        }
        assert(m.take(8) =~= m);
        let mut n: usize = 8;
        while n > 0 && mapped[n - 1] == 32
            invariant
                n <= 8,
                mapped@ == m,
                m.len() == 8,
                forall|j: int| n <= j < 8 ==> #[trigger] m[j] == 32,
            decreases n,
        {
            n = n - 1;
        }
        proof {
            lemma_trim_spaces_at(m, n as int);
        }
        let ghost t = trim_spaces(m);
        let mut out: Vec<u8> = Vec::new();
        if n == 0 {
            out.push(95);
            assert(out@ =~= seq![95u8]);
            return out;
        }
        let mut k: usize = 0;
        while k < n
            invariant
                k <= n <= 8,
                mapped@ == m,
                m.len() == 8,
                t == m.take(n as int),
                out@ == t.map_values(|b: u8| path_safe(b)).take(k as int),
            decreases n - k,
        {
            out.push(path_safe_byte(mapped[k]));
            proof {
                assert(t[k as int] == m[k as int]);
            }
            k = k + 1;
            assert(out@ =~= t.map_values(|b: u8| path_safe(b)).take(k as int));
        }
        assert(t.map_values(|b: u8| path_safe(b)).take(n as int) =~= t.map_values(
            |b: u8| path_safe(b),
        ));
        out
    }

    fn type_ext_vec(&self) -> (v: Vec<u8>)
        ensures
            v@ == type_ext_bytes(self.file_type),
    {
        let t = self.file_type;
        let mut v: Vec<u8> = Vec::new();
        if 0x20 <= t && t <= 0x7e {
            v.push(path_safe_byte(t));
            assert(v@ =~= seq![path_safe(t)]);
        } else {
            v.push(hex_digit_byte(t / 16));
            v.push(hex_digit_byte(t % 16));
            assert(v@ =~= seq![hex_digit(t / 16), hex_digit(t % 16)]);
        }
        v
    }

    fn ext_vec(&self, mode: ExtMode) -> (v: Vec<u8>)
        ensures
            v@ == ext_bytes(self@, mode),
    {
        let mut base = self.type_ext_vec();
        if base.len() != 1 {
            return base;
        }
        let lo = (self.start % 256) as u8;
        let hi = (self.start / 256) as u8;
        let three = match mode {
            ExtMode::Single => false,
            ExtMode::Triple => true,
            ExtMode::Smart => 0x20 <= lo && lo <= 0x7e && 0x20 <= hi && hi <= 0x7e,
        };
        if three {
            let ghost b0 = base@;
            base.push(ext_byte_of(lo));
            base.push(ext_byte_of(hi));
            assert(base@ =~= b0 + seq![ext_byte(lo), ext_byte(hi)]);
        }
        base
    }

    /// The sanitized 8-char name, trailing spaces trimmed. Non-printable bytes
    /// become `?`, path-unsafe characters become `_`, and a deleted/blank first
    /// character becomes `_`.
    pub fn base_name(&self) -> (r: String)
        ensures
            r@ == ascii_chars(base_name_bytes(self@)),
    {
        proof {
            lemma_base_name_ascii(self@);
        }
        let v = self.base_name_vec();
        ascii_string(&v)
    }

    /// Just the TR-DOS type byte as an extension token (`C`, or the hex byte for
    /// a non-printable type).
    pub fn type_char_ext(&self) -> (r: String)
        ensures
            r@ == ascii_chars(type_ext_bytes(self.file_type)),
    {
        proof {
            lemma_type_ext_ascii(self.file_type);
        }
        let v = self.type_ext_vec();
        ascii_string(&v)
    }

    /// The filename extension for a given [`ExtMode`]: 1 character (the type byte)
    /// or 3 characters.
    ///
    /// In a TR-DOS entry the type byte (0x08) is followed by 2 bytes (0x09-0x0A)
    /// that are normally the load address, but for many files are instead 2 extra
    /// extension letters. `Single` always shows 1 char; `Triple` always 3; `Smart`
    /// shows 3 only when both of those bytes are printable ASCII, else 1.
    pub fn ext_string_with(&self, mode: ExtMode) -> (r: String)
        ensures
            r@ == ascii_chars(ext_bytes(self@, mode)),
    {
        proof {
            lemma_display_name_ascii(self@, mode);
            let d = display_name_bytes(self@, mode);
            let e = ext_bytes(self@, mode);
            let b = base_name_bytes(self@);
            assert forall|i: int| 0 <= i < e.len() implies #[trigger] e[i] < 0x80 by {
                assert(d[b.len() + 1 + i] == e[i]);
            }
        }
        let v = self.ext_vec(mode);
        ascii_string(&v)
    }

    /// The extension in the library's default mode, [`ExtMode::Smart`].
    pub fn ext_string(&self) -> (r: String)
        ensures
            r@ == ascii_chars(ext_bytes(self@, ExtMode::Smart)),
    {
        self.ext_string_with(ExtMode::Smart)
    }

    fn display_name_vec(&self, mode: ExtMode) -> (v: Vec<u8>)
        ensures
            v@ == display_name_bytes(self@, mode),
    {
        let mut v = self.base_name_vec();
        v.push(46);
        let e = self.ext_vec(mode);
        push_all(&mut v, &e);
        v
    }

    fn hobeta_name_vec(&self) -> (v: Vec<u8>)
        ensures
            v@ == hobeta_name_bytes(self@),
    {
        let mut v = self.base_name_vec();
        v.push(46);
        v.push(36);
        let e = self.type_ext_vec();
        push_all(&mut v, &e);
        v
    }

    /// Display name for a given mode, e.g. `"HELLO.C"` or `"PIC.SCR"`.
    pub fn display_name_with(&self, mode: ExtMode) -> (r: String)
        ensures
            r@ == display_name_of(self@, mode),
    {
        proof {
            lemma_display_name_ascii(self@, mode);
        }
        let v = self.display_name_vec(mode);
        ascii_string(&v)
    }

    /// Display name in the library's default mode, [`ExtMode::Smart`].
    pub fn display_name(&self) -> (r: String)
        ensures
            r@ == display_name_of(self@, ExtMode::Smart),
    {
        self.display_name_with(ExtMode::Smart)
    }

    /// Hobeta-style name, e.g. `"HELLO.$C"` (always the single type char - the
    /// hobeta header preserves the address/params).
    pub fn hobeta_name(&self) -> (r: String)
        ensures
            r@ == hobeta_name_of(self@),
    {
        proof {
            lemma_display_name_ascii(self@, ExtMode::Single);
        }
        let v = self.hobeta_name_vec();
        ascii_string(&v)
    }

    /// Whether `target` is this file's display name in `mode` or its hobeta name.
    pub fn is_named(&self, target: &String, mode: ExtMode) -> (b: bool)
        ensures
            b == names_file(self@, target@, mode),
    {
        let d = self.display_name_with(mode);
        if d == *target {
            return true;
        }
        let h = self.hobeta_name();
        h == *target
    }

    /// Parse a filename (its basename) into a TR-DOS 8-char name, type letter, and
    /// optional start-address override. A 1-character extension sets just the type;
    /// a 3-character extension sets the type (1st char) and the two address bytes
    /// (2nd/3rd chars, little-endian); any other length defaults to type `C`.
    pub fn split_name_type(basename: &str) -> (r: ([u8; NAME_LEN], u8, Option<u16>))
        ensures
            (r.0@, r.1, r.2) == split_name_type_spec(basename.spec_bytes()),
    {
        let bs = basename.as_bytes();
        let len = bs.len();
        let ghost s = bs@;
        proof {
            assert(s.take(len as int) =~= s);
        }
        let mut j: usize = len;
        while j > 0 && bs[j - 1] != 46
            invariant
                j <= len,
                len == s.len(),
                bs@ == s,
                last_dot(s) == last_dot(s.take(j as int)),
            decreases j,
        {
            proof {
                assert(s.take(j as int).drop_last() =~= s.take(j - 1));
            }
            j = j - 1;
        }
        proof {
            if j > 0 {
                assert(s.take(j as int).last() == 46);
            } else {
                assert(s.take(0).len() == 0);
            }
        }
        // j == last_dot(s) + 1
        let split = j >= 2 && j < len;
        let stem_len: usize = if split { j - 1 } else { len };
        let ext_start: usize = if split { j } else { len };
        let ghost stem = s.take(stem_len as int);
        let ghost ext = s.skip(ext_start as int);
        proof {
            if !split {
                assert(s.take(len as int) =~= s);
                assert(s.skip(len as int) =~= Seq::<u8>::empty());
            }
            assert(stem_ext(s) == (stem, ext));
        }
        let mut name: [u8; NAME_LEN] = [32u8; NAME_LEN];
        let mut i: usize = 0;
        while i < NAME_LEN
            invariant
                i <= 8,
                stem_len <= len,
                len == s.len(),
                bs@ == s,
                stem == s.take(stem_len as int),
                forall|k: int| 0 <= k < i ==> name@[k] == name8(stem)[k],
                forall|k: int| i <= k < 8 ==> name@[k] == 32u8,
            decreases 8 - i,
        {
            if i < stem_len {
                name[i] = bs[i];
            }
            i = i + 1;
        }
        assert(name@ =~= name8(stem));
        let ext_len = len - ext_start;
        let (t, st): (u8, Option<u16>) = if ext_len == 1 {
            (bs[ext_start], None)
        } else if ext_len == 3 {
            let lo = bs[ext_start + 1] as u16;
            let hi = bs[ext_start + 2] as u16;
            (bs[ext_start], Some(lo + 256 * hi))
        } else {
            (67u8, None)
        };
        (name, t, st)
    }

    /// Parse a host filename (its basename) into a TR-DOS file; without an
    /// address in the extension the start address is 0.
    pub fn from_host_filename(basename: &str, data: Vec<u8>) -> (f: TrFile)
        ensures
            f@ == host_file(basename.spec_bytes(), data@),
    {
        let (name, file_type, start) = TrFile::split_name_type(basename);
        let s = match start {
            Some(a) => a,
            None => 0,
        };
        TrFile::new(name, file_type, s, data)
    }
}

impl ExtMode {
    /// Parse a setting value (`1`/`single`/`one`, `3`/`triple`/`three`,
    /// `smart`/`auto`/`intelligent`), ignoring surrounding whitespace and ASCII case.
    pub fn parse(s: &str) -> (r: Option<ExtMode>)
        ensures
            r == ext_mode_of(s@),
    {
        let n = normalized(s);
        if chars_eq(&n, "1") || chars_eq(&n, "single") || chars_eq(&n, "one") {
            Some(ExtMode::Single)
        } else if chars_eq(&n, "3") || chars_eq(&n, "triple") || chars_eq(&n, "three") {
            Some(ExtMode::Triple)
        } else if chars_eq(&n, "smart") || chars_eq(&n, "auto") || chars_eq(&n, "intelligent") {
            Some(ExtMode::Smart)
        } else {
            None
        }
    }
}

/// Only trailing spaces are cut by [`trim_spaces`].
proof fn lemma_trim_spaces_rest(s: Seq<u8>)
    ensures
        forall|i: int| trim_spaces(s).len() <= i < s.len() ==> #[trigger] s[i] == 32,
    decreases s.len(),
{
    lemma_trim_spaces_prefix(s);
    if s.len() > 0 && s.last() == 32 {
        lemma_trim_spaces_rest(s.drop_last());
        assert forall|i: int| trim_spaces(s).len() <= i < s.len() implies #[trigger] s[i] == 32 by {
            if i < s.len() - 1 {
                assert(s[i] == s.drop_last()[i]);
            }
        }
    }
}

/// The last `.` of `a`, a `.`, then bytes without a `.`, is that `.`.
proof fn lemma_last_dot_after(a: Seq<u8>, e: Seq<u8>)
    requires
        forall|i: int| 0 <= i < e.len() ==> #[trigger] e[i] != 46,
    ensures
        last_dot(a + seq![46u8] + e) == a.len(),
    decreases e.len(),
{
    let d = a + seq![46u8] + e;
    if e.len() == 0 {
        assert(d.last() == 46);
    } else {
        assert(d.last() == e.last());
        assert(d.drop_last() =~= a + seq![46u8] + e.drop_last());
        lemma_last_dot_after(a, e.drop_last());
    }
}

/// A name byte that shows as itself in a display name and a host file name:
/// printable ASCII other than `/`, `\` and `:`.
pub open spec fn shows_as_itself(b: u8) -> bool {
    is_printable(b) && path_safe(b) == b
}

/// An extension byte that [`split_name_type_spec`] reads back as itself: graphic
/// ASCII other than `/`, `\`, `:` and `.`.
pub open spec fn ext_reads_back(b: u8) -> bool {
    is_graphic(b) && path_safe(b) == b && b != 46
}

/// Splitting the display name of a live file back into a TR-DOS name, type and
/// start address gives the file's own name and type, where its name bytes show
/// as themselves (not all spaces) and its type reads back as itself; and, when
/// the extension shows the two address bytes and they read back as themselves,
/// its start address. A 1-character extension gives no address. (The display
/// name's UTF-8 bytes, what `split_name_type` reads, are its ASCII bytes.)
pub proof fn lemma_display_name_splits_back(f: TrFileView, mode: ExtMode)
    requires
        f.name.len() == 8,
        !f.deleted,
        forall|i: int| 0 <= i < 8 ==> shows_as_itself(#[trigger] f.name[i]),
        exists|i: int| 0 <= i < 8 && #[trigger] f.name[i] != 32,
        ext_reads_back(f.file_type),
    ensures
        vstd::utf8::encode_utf8(display_name_of(f, mode)) == display_name_bytes(f, mode),
        !shows_three(mode, f.start) ==> split_name_type_spec(
            vstd::utf8::encode_utf8(display_name_of(f, mode)),
        ) == (f.name, f.file_type, None::<u16>),
        shows_three(mode, f.start) && ext_reads_back((f.start % 256) as u8) && ext_reads_back(
            (f.start / 256) as u8,
        ) ==> split_name_type_spec(vstd::utf8::encode_utf8(display_name_of(f, mode))) == (
            f.name,
            f.file_type,
            Some(f.start),
        ),
{
    lemma_display_name_ascii(f, mode);
    crate::text::lemma_ascii_decode(display_name_bytes(f, mode));
    vstd::utf8::decode_utf8_encode_utf8(display_name_bytes(f, mode));
    let name = f.name;
    assert(!(name[0] == 0 || name[0] == 1)) by {
        assert(shows_as_itself(name[0]));
    }
    let m = name.map_values(|b: u8| printable(b));
    assert(m =~= name) by {
        assert forall|i: int| 0 <= i < 8 implies m[i] == name[i] by {
            assert(shows_as_itself(name[i]));
        }
    }
    lemma_trim_spaces_prefix(m);
    lemma_trim_spaces_rest(m);
    let t = trim_spaces(m);
    let n = t.len() as int;
    assert(n >= 1) by {
        let w = choose|i: int| 0 <= i < 8 && #[trigger] f.name[i] != 32;
        if n == 0 {
            assert(m[w] == 32);
        }
    }
    let base = t.map_values(|b: u8| path_safe(b));
    assert(base =~= t) by {
        assert forall|i: int| 0 <= i < n implies base[i] == t[i] by {
            assert(t[i] == name[i]);
            assert(shows_as_itself(name[i]));
        }
    }
    assert(base_name_bytes(f) == t);
    let ty = f.file_type;
    assert(type_ext_bytes(ty) =~= seq![ty]);
    let lo = (f.start % 256) as u8;
    let hi = (f.start / 256) as u8;
    let e = ext_bytes(f, mode);
    let d = display_name_bytes(f, mode);
    assert(d == t + seq![46u8] + e);
    if shows_three(mode, f.start) && ext_reads_back(lo) && ext_reads_back(hi) {
        assert(e =~= seq![ty, lo, hi]);
    } else if !shows_three(mode, f.start) {
        assert(e =~= seq![ty]);
    }
    if !shows_three(mode, f.start) || (ext_reads_back(lo) && ext_reads_back(hi)) {
        assert forall|i: int| 0 <= i < e.len() implies #[trigger] e[i] != 46 by {}
        lemma_last_dot_after(t, e);
        assert(d.take(n) =~= t);
        assert(d.skip(n + 1) =~= e);
        assert(name8(t) =~= name) by {
            assert forall|i: int| 0 <= i < 8 implies name8(t)[i] == name[i] by {
                if i < n {
                    assert(t[i] == m[i]);
                } else {
                    assert(m[i] == 32);
                }
            }
        }
        if shows_three(mode, f.start) {
            assert(lo + 256 * hi == f.start);
        }
    }
}

/// A file answers to both of its names: its display name in the mode asked
/// for, and its hobeta name `NAME.$T` (the name a hobeta-mode listing shows).
pub proof fn lemma_file_answers_to_its_names(f: TrFileView, mode: ExtMode)
    ensures
        names_file(f, display_name_of(f, mode), mode),
        names_file(f, hobeta_name_of(f), mode),
{
}

} // verus!
