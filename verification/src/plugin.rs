//! The archive-plugin side of the library: how a disk image looks as an
//! archive to a file manager (entry names, the virtual `deleted\` folder for
//! recoverable TR-DOS files, unique names, what extraction writes), and the
//! decisions of packing and deleting, with the WCX result codes they report.
use vstd::prelude::*;
use vstd::string::StringSliceAdditionalSpecFns;
use vstd::set_lib::{lemma_int_range, lemma_len_subset, lemma_map_size, set_int_range};
use crate::entry::{ExtMode, TrFile, TrFileView, display_name_of, hobeta_name_of, host_file, views};
use crate::error::Error;
use crate::hobeta::{hobeta_bytes, hobeta_head, hobeta_parse, hobeta_sectors, parse, wrap};
use crate::image::{Image, ImageView, image_deleted};
use crate::settings::digits_value;
use crate::text::{chars_of, dec_chars, dec_string, digit_char};
use crate::paths::texts;

verus! {

/// Success.
pub const E_SUCCESS: i32 = 0;
/// No more entries.
pub const E_END_ARCHIVE: i32 = 10;
/// The archive is broken.
pub const E_BAD_ARCHIVE: i32 = 13;
/// Not an archive this plugin knows.
pub const E_UNKNOWN_FORMAT: i32 = 14;
/// The archive could not be opened.
pub const E_EOPEN: i32 = 15;
/// A file could not be read.
pub const E_EREAD: i32 = 18;
/// A file could not be written (or does not fit).
pub const E_EWRITE: i32 = 19;
/// No matching file.
pub const E_NO_FILES: i32 = 22;
/// Too many files.
pub const E_TOO_MANY_FILES: i32 = 23;
/// The operation is not supported.
pub const E_NOT_SUPPORTED: i32 = 24;
/// A fixed, valid DOS date/time (1990-01-01 12:00) - TR-DOS has no timestamps.
pub const DOS_TIME: i32 = 0x1421_6000;

/// The WCX code an image error is reported as. A full disk or a file too big
/// for TR-DOS is a write-side limit, not an out-of-memory condition.
pub open spec fn core_err_code(e: Error) -> i32 {
    match e {
        Error::TooManyFiles => E_TOO_MANY_FILES,
        Error::DiskFull => E_EWRITE,
        Error::FileTooBig => E_EWRITE,
        Error::UnknownFormat => E_UNKNOWN_FORMAT,
        Error::BadArchive(_) => E_BAD_ARCHIVE,
        Error::NotFound => E_NO_FILES,
    }
}

/// Map an image error to the WCX code reported for it.
pub fn map_core_err(e: Error) -> (r: i32)
    ensures
        r == core_err_code(e),
{
    match e {
        Error::TooManyFiles => E_TOO_MANY_FILES,
        Error::DiskFull => E_EWRITE,
        Error::FileTooBig => E_EWRITE,
        Error::UnknownFormat => E_UNKNOWN_FORMAT,
        Error::BadArchive(_) => E_BAD_ARCHIVE,
        Error::NotFound => E_NO_FILES,
    }
}

/// In-archive name of an entry: its hobeta name when extracting to hobeta
/// files, else its display name in `mode`.
pub open spec fn entry_name_of(f: TrFileView, hobeta: bool, mode: ExtMode) -> Seq<char> {
    if hobeta {
        hobeta_name_of(f)
    } else {
        display_name_of(f, mode)
    }
}

/// In-archive display name for an entry, matching the extraction mode.
pub fn entry_name_with(e: &TrFile, hobeta: bool, mode: ExtMode) -> (r: String)
    ensures
        r@ == entry_name_of(e@, hobeta, mode),
{
    if hobeta {
        e.hobeta_name()
    } else {
        e.display_name_with(mode)
    }
}

/// [`entry_name_with`] in the library's default mode, [`ExtMode::Smart`].
pub fn entry_name(e: &TrFile, hobeta: bool) -> (r: String)
    ensures
        r@ == entry_name_of(e@, hobeta, ExtMode::Smart),
{
    entry_name_with(e, hobeta, ExtMode::Smart)
}

/// Bytes written when extracting an entry: a hobeta file, or the raw data.
pub fn encode_entry(e: &TrFile, hobeta: bool) -> (r: Vec<u8>)
    ensures
        r@ == if hobeta {
            hobeta_bytes(e@)
        } else {
            e@.data
        },
{
    if hobeta {
        wrap(e)
    } else {
        let mut v: Vec<u8> = Vec::new();
        let mut i: usize = 0;
        while i < e.data.len()
            invariant
                i <= e.data@.len(),
                v@ == e.data@.take(i as int),
            decreases e.data@.len() - i,
        {
            v.push(e.data[i]);
            i = i + 1;
            assert(v@ =~= e.data@.take(i as int));
        }
        assert(e.data@.take(i as int) =~= e.data@);
        v
    }
}

/// The size reported for an entry: the 17-byte hobeta header and the data
/// padded to whole sectors (at most 255 of them, as [`wrap`] writes), or the
/// raw data length.
pub open spec fn extracted_len_of(f: TrFileView, hobeta: bool) -> int {
    if hobeta {
        17 + hobeta_sectors(f) * 256
    } else {
        f.data.len() as int
    }
}

/// Length of the bytes [`encode_entry`] produces, without allocating them.
pub fn extracted_len(e: &TrFile, hobeta: bool) -> (r: usize)
    ensures
        r == extracted_len_of(e@, hobeta),
        r == (if hobeta {
            hobeta_bytes(e@)
        } else {
            e@.data
        }).len(),
{
    proof {
        lemma_extracted_len_is_written_len(e@, hobeta);
    }
    let n = e.data.len();
    if hobeta {
        let need = n / 256 + if n % 256 != 0 { 1usize } else { 0usize };
        let sectors: usize = if need > 255 { 255 } else { need };
        assert(sectors == hobeta_sectors(e@));
        17 + sectors * 256
    } else {
        n
    }
}

/// The size reported for an entry is the length of what extracting it writes.
pub proof fn lemma_extracted_len_is_written_len(f: TrFileView, hobeta: bool)
    requires
        f.name.len() == 8,
    ensures
        extracted_len_of(f, hobeta) == (if hobeta {
            hobeta_bytes(f)
        } else {
            f.data
        }).len(),
{
    assert(hobeta_head(f).len() == 15);
}

/// The virtual folder deleted (recoverable) TR-DOS files are listed under.
pub open spec fn deleted_dir() -> Seq<char> {
    "deleted\\"@
}

/// The listed name of an entry: its name, under `deleted\` when deleted.
pub open spec fn listed_name(f: TrFileView, hobeta: bool, mode: ExtMode) -> Seq<char> {
    if f.deleted {
        deleted_dir() + entry_name_of(f, hobeta, mode)
    } else {
        entry_name_of(f, hobeta, mode)
    }
}

/// Index of the last `c` in `s`, or -1.
pub open spec fn last_of(s: Seq<char>, c: char) -> int
    decreases s.len(),
{
    if s.len() == 0 {
        -1
    } else if s.last() == c {
        s.len() - 1
    } else {
        last_of(s.drop_last(), c)
    }
}

proof fn lemma_last_of(s: Seq<char>, c: char)
    ensures
        -1 <= last_of(s, c) < s.len(),
        last_of(s, c) >= 0 ==> s[last_of(s, c)] == c,
        forall|j: int| last_of(s, c) < j < s.len() ==> s[j] != c,
    decreases s.len(),
{
    if s.len() > 0 && s.last() != c {
        lemma_last_of(s.drop_last(), c);
        assert forall|j: int| last_of(s, c) < j < s.len() implies s[j] != c by {
            if j < s.len() - 1 {
                assert(s[j] == s.drop_last()[j]);
            }
        }
    }
}

/// `name` with `_k` put before its extension (the part from its last `.`).
pub open spec fn numbered(name: Seq<char>, k: nat) -> Seq<char> {
    let i = last_of(name, '.');
    if i >= 0 {
        name.take(i) + "_"@ + dec_chars(k) + name.skip(i)
    } else {
        name + "_"@ + dec_chars(k)
    }
}

/// `k` is the first number from 2 on whose numbered name is not yet taken.
pub open spec fn first_free(seen: Seq<Seq<char>>, name: Seq<char>, k: nat) -> bool {
    &&& k >= 2
    &&& !seen.contains(numbered(name, k))
    &&& forall|j: nat| 2 <= j < k ==> seen.contains(#[trigger] numbered(name, j))
}

/// `name` if it is not taken yet, else its first free numbered form.
pub open spec fn unique_name(seen: Seq<Seq<char>>, name: Seq<char>) -> Seq<char> {
    if !seen.contains(name) {
        name
    } else {
        numbered(name, choose|k: nat| first_free(seen, name, k))
    }
}

/// The listed names of the first `n` entries: each listed name, made unique
/// against the names before it.
pub open spec fn names_upto(fs: Seq<TrFileView>, hobeta: bool, mode: ExtMode, n: nat) -> Seq<Seq<char>>
    decreases n,
{
    if n == 0 || n > fs.len() {
        Seq::empty()
    } else {
        let prev = names_upto(fs, hobeta, mode, (n - 1) as nat);
        prev.push(unique_name(prev, listed_name(fs[n - 1], hobeta, mode)))
    }
}

/// The decimal digits of `n` spell `n`.
proof fn lemma_dec_value(n: nat)
    ensures
        digits_value(dec_chars(n)) == n,
    decreases n,
{
    let x = (n % 10) as int;
    assert((digit_char(x) as int) == 48 + x);
    if n >= 10 {
        lemma_dec_value(n / 10);
        let d = dec_chars(n);
        assert(d.drop_last() == dec_chars(n / 10));
        assert(d.last() == digit_char(x));
        assert(digits_value(d) == digits_value(d.drop_last()) * 10 + ((d.last() as int) - 48) as nat);
        assert(n == (n / 10) * 10 + x);
    } else {
        let d = dec_chars(n);
        assert(d.drop_last() =~= Seq::<char>::empty());
        assert(d.last() == digit_char(x));
        assert(digits_value(d) == digits_value(d.drop_last()) * 10 + ((d.last() as int) - 48) as nat);
    }
}

/// Different numbers give different numbered names.
proof fn lemma_numbered_injective(name: Seq<char>, a: nat, b: nat)
    requires
        numbered(name, a) == numbered(name, b),
    ensures
        a == b,
{
    let i = last_of(name, '.');
    let da = dec_chars(a);
    let db = dec_chars(b);
    let (p, q) = if i >= 0 {
        (name.take(i) + "_"@, name.skip(i))
    } else {
        (name + "_"@, Seq::<char>::empty())
    };
    assert(numbered(name, a) =~= p + da + q);
    assert(numbered(name, b) =~= p + db + q);
    let whole = p + da + q;
    assert(da.len() == db.len());
    assert(da =~= whole.subrange(p.len() as int, (p.len() + da.len()) as int));
    assert(db =~= (p + db + q).subrange(p.len() as int, (p.len() + db.len()) as int));
    lemma_dec_value(a);
    lemma_dec_value(b);
}

/// If the numbered names 2..=k are all taken, at least k - 1 names are.
proof fn lemma_numbered_taken(seen: Seq<Seq<char>>, name: Seq<char>, k: nat)
    requires
        k >= 2,
        forall|j: nat| 2 <= j <= k ==> seen.contains(#[trigger] numbered(name, j)),
    ensures
        k - 1 <= seen.len(),
{
    let r = set_int_range(2, (k + 1) as int);
    let f = |j: int| numbered(name, j as nat);
    let y = r.map(f);
    lemma_int_range(2, (k + 1) as int);
    assert forall|a: int, b: int| r.contains(a) && r.contains(b) && #[trigger] f(a) == #[trigger] f(b) implies a == b by {
        lemma_numbered_injective(name, a as nat, b as nat);
    }
    lemma_map_size(r, y, f);
    assert forall|x: Seq<char>| y.contains(x) implies seen.to_set().contains(x) by {
        let j = choose|j: int| r.contains(j) && f(j) == x;
        assert(seen.contains(numbered(name, j as nat)));
    }
    vstd::seq_lib::seq_to_set_is_finite(seen);
    lemma_len_subset(y, seen.to_set());
    seen.lemma_cardinality_of_set();
}

/// There is a first free numbered name, at most `seen.len() + 2`.
proof fn lemma_first_free_exists(seen: Seq<Seq<char>>, name: Seq<char>, k: nat) -> (r: nat)
    requires
        2 <= k <= seen.len() + 2,
        forall|j: nat| 2 <= j < k ==> seen.contains(#[trigger] numbered(name, j)),
    ensures
        first_free(seen, name, r),
        r <= seen.len() + 2,
    decreases seen.len() + 2 - k,
{
    if !seen.contains(numbered(name, k)) {
        k
    } else {
        lemma_numbered_taken(seen, name, k);
        lemma_first_free_exists(seen, name, k + 1)
    }
}

/// The first free number is unique.
proof fn lemma_first_free_unique(seen: Seq<Seq<char>>, name: Seq<char>, a: nat, b: nat)
    requires
        first_free(seen, name, a),
        first_free(seen, name, b),
    ensures
        a == b,
{
    if a < b {
        assert(seen.contains(numbered(name, a)));
    }
    if b < a {
        assert(seen.contains(numbered(name, b)));
    }
}

/// A name made unique is not among the names before it.
proof fn lemma_unique_name_is_new(seen: Seq<Seq<char>>, name: Seq<char>)
    ensures
        !seen.contains(unique_name(seen, name)),
{
    if seen.contains(name) {
        let k = lemma_first_free_exists(seen, name, 2);
        let c = choose|k: nat| first_free(seen, name, k);
        lemma_first_free_unique(seen, name, k, c);
    }
}

/// The listed names of an archive are all different, so every entry can be
/// extracted to a target of its own.
pub proof fn lemma_names_distinct(fs: Seq<TrFileView>, hobeta: bool, mode: ExtMode, n: nat)
    ensures
        forall|i: int, j: int|
            0 <= i < j < names_upto(fs, hobeta, mode, n).len() ==> names_upto(fs, hobeta, mode, n)[i]
                != names_upto(fs, hobeta, mode, n)[j],
        n <= fs.len() ==> names_upto(fs, hobeta, mode, n).len() == n,
    decreases n,
{
    if n > 0 && n <= fs.len() {
        let prev = names_upto(fs, hobeta, mode, (n - 1) as nat);
        lemma_names_distinct(fs, hobeta, mode, (n - 1) as nat);
        let new = unique_name(prev, listed_name(fs[n - 1], hobeta, mode));
        lemma_unique_name_is_new(prev, listed_name(fs[n - 1], hobeta, mode));
        let all = names_upto(fs, hobeta, mode, n);
        assert(all == prev.push(new));
        assert forall|i: int, j: int| 0 <= i < j < all.len() implies all[i] != all[j] by {
            if j == all.len() - 1 {
                assert(all[i] == prev[i]);
                assert(prev.contains(prev[i]));
            } else {
                assert(all[i] == prev[i] && all[j] == prev[j]);
            }
        }
    }
}

/// Whether `n` is one of `names`.
fn has_name(names: &Vec<String>, n: &String) -> (r: bool)
    ensures
        r == texts(names@).contains(n@),
{
    let mut i: usize = 0;
    while i < names.len()
        invariant
            i <= names@.len(),
            forall|j: int| 0 <= j < i ==> texts(names@)[j] != n@,
        decreases names@.len() - i,
    {
        if names[i] == *n {
            assert(texts(names@)[i as int] == n@);
            return true;
        }
        i = i + 1;
    }
    false
}

/// `name` with `_k` before its extension.
#[verifier::spinoff_prover]
fn numbered_name(name: &String, k: u64) -> (r: String)
    ensures
        r@ == numbered(name@, k as nat),
{
    let cs = chars_of(name.as_str());
    let mut i: usize = cs.len();
    while i > 0 && cs[i - 1] != '.'
        invariant
            i <= cs@.len(),
            cs@ == name@,
            forall|j: int| i <= j < cs@.len() ==> cs@[j] != '.',
        decreases i,
    {
        i = i - 1;
    }
    proof {
        lemma_last_of(name@, '.');
        reveal_strlit("_");
        let l = last_of(name@, '.');
        if i > 0 {
            assert(cs@[i - 1] == '.');
            if l > i - 1 {
                assert(cs@[l] != '.');
            }
            if l < i - 1 {
                assert(name@[i - 1] != '.');
            }
        } else if l >= 0 {
            assert(cs@[l] != '.');
        }
    }
    let d = dec_string(k);
    if i > 0 {
        let mut r = String::from_str(name.as_str().substring_char(0, i - 1));
        r.append("_");
        r.append(d.as_str());
        r.append(name.as_str().substring_char(i - 1, cs.len()));
        proof {
            assert(r@ =~= numbered(name@, k as nat));
        }
        r
    } else {
        let mut r = String::from_str(name.as_str());
        r.append("_");
        r.append(d.as_str());
        proof {
            assert(r@ =~= numbered(name@, k as nat));
        }
        r
    }
}

/// `name` made unique against `names`.
#[verifier::spinoff_prover]
fn make_unique(names: &Vec<String>, name: String) -> (r: String)
    requires
        names@.len() + 3 <= u64::MAX,
    ensures
        r@ == unique_name(texts(names@), name@),
{
    let ghost seen = texts(names@);
    if !has_name(names, &name) {
        return name;
    }
    let mut k: u64 = 2;
    let mut cand = numbered_name(&name, k);
    while has_name(names, &cand)
        invariant
            seen == texts(names@),
            names@.len() + 3 <= u64::MAX,
            2 <= k <= seen.len() + 2,
            cand@ == numbered(name@, k as nat),
            forall|j: nat| 2 <= j < k ==> seen.contains(#[trigger] numbered(name@, j)),
        decreases seen.len() + 2 - k,
    {
        proof {
            assert forall|j: nat| 2 <= j <= k implies seen.contains(#[trigger] numbered(name@, j)) by {
                if j == k {
                    assert(numbered(name@, j) == cand@);
                }
            }
            lemma_numbered_taken(seen, name@, k as nat);
        }
        k = k + 1;
        cand = numbered_name(&name, k);
    }
    proof {
        let c = choose|j: nat| first_free(seen, name@, j);
        let w = lemma_first_free_exists(seen, name@, 2);
        lemma_first_free_unique(seen, name@, w, c);
        lemma_first_free_unique(seen, name@, k as nat, c);
    }
    cand
}

/// Build the in-archive names, putting deleted files under `deleted\` and
/// numbering collisions (`NAME_2.C`, `NAME_3.C`, ...) so extraction targets
/// stay unique.
#[verifier::spinoff_prover]
pub fn build_names_with(entries: &Vec<TrFile>, hobeta: bool, mode: ExtMode) -> (r: Vec<String>)
    requires
        entries@.len() + 3 <= u64::MAX,
    ensures
        texts(r@) == names_upto(views(entries@), hobeta, mode, entries@.len()),
{
    let ghost fs = views(entries@);
    let mut names: Vec<String> = Vec::new();
    let mut i: usize = 0;
    while i < entries.len()
        invariant
            fs == views(entries@),
            entries@.len() + 3 <= u64::MAX,
            i <= entries@.len(),
            names@.len() == i,
            texts(names@) == names_upto(fs, hobeta, mode, i as nat),
        decreases entries@.len() - i,
    {
        let e = &entries[i];
        let base = entry_name_with(e, hobeta, mode);
        let listed = if e.deleted {
            let mut n = String::from_str("deleted\\");
            n.append(base.as_str());
            n
        } else {
            base
        };
        assert(listed@ == listed_name(fs[i as int], hobeta, mode));
        let unique = make_unique(&names, listed);
        let ghost prev = texts(names@);
        names.push(unique);
        proof {
            assert(texts(names@) =~= prev.push(unique_name(prev, listed_name(fs[i as int], hobeta, mode))));
        }
        i = i + 1;
    }
    names
}

/// [`build_names_with`] in the library's default mode, [`ExtMode::Smart`].
pub fn build_names(entries: &Vec<TrFile>, hobeta: bool) -> (r: Vec<String>)
    requires
        entries@.len() + 3 <= u64::MAX,
    ensures
        texts(r@) == names_upto(views(entries@), hobeta, ExtMode::Smart, entries@.len()),
{
    build_names_with(entries, hobeta, ExtMode::Smart)
}

/// Whether a pack target folder is the image root: nothing but slashes and
/// backslashes. Packing into a folder of the image (such as the virtual
/// `deleted\` view) is refused rather than silently dropped into the root.
pub open spec fn is_root_folder(sub: Seq<char>) -> bool {
    forall|i: int| 0 <= i < sub.len() ==> #[trigger] sub[i] == '\\' || sub[i] == '/'
}

/// Whether packing targets the image root.
pub fn packs_into_root(sub: &str) -> (r: bool)
    ensures
        r == is_root_folder(sub@),
{
    let cs = chars_of(sub);
    let mut i: usize = 0;
    while i < cs.len()
        invariant
            cs@ == sub@,
            i <= cs@.len(),
            forall|j: int| 0 <= j < i ==> #[trigger] sub@[j] == '\\' || sub@[j] == '/',
        decreases cs@.len() - i,
    {
        if cs[i] != '\\' && cs[i] != '/' {
            return false;
        }
        i = i + 1;
    }
    true
}

/// The file a host file becomes when packed: a valid hobeta file restores
/// its full metadata; anything else is raw data typed by its name.
pub open spec fn packed_file(name: Seq<u8>, data: Seq<u8>) -> TrFileView {
    match hobeta_parse(data) {
        Some(f) => f,
        None => host_file(name, data),
    }
}

/// The file to add for a host file called `name` (its basename) holding
/// `data`.
pub fn pack_file(name: &str, data: Vec<u8>) -> (f: TrFile)
    ensures
        f@ == packed_file(name.spec_bytes(), data@),
{
    match parse(data.as_slice()) {
        Some(f) => f,
        None => TrFile::from_host_filename(name, data),
    }
}

/// What reading the archive to pack into came to.
pub enum TargetRead {
    /// Its bytes.
    Read(Vec<u8>),
    /// There is no such file yet.
    Missing,
    /// It exists but could not be read.
    Failed,
}

/// The image to pack into, by what reading it came to: the image its bytes
/// hold (`E_BAD_ARCHIVE` when they hold none), a new blank image of the kind
/// `ext` names when there is no such file yet (a TRD of `geometry` unless
/// `ext` is `scl`), and `E_EOPEN` when it could not be read: an archive that
/// exists is never replaced by a blank one.
pub fn pack_target(read: TargetRead, ext: &str, geometry: crate::trd::DiskType) -> (r: Result<Image, i32>)
    ensures
        r matches Ok(img) ==> img.wf(),
        read matches TargetRead::Read(b) ==> match crate::image::open_result(b@, Some(ext@)) {
            Ok(v) => r matches Ok(img) && img@ == v,
            Err(_) => r == Err::<Image, i32>(E_BAD_ARCHIVE),
        },
        read matches TargetRead::Missing ==> r matches Ok(img) && (if crate::text::lower(ext@) == "scl"@ {
            img@ == ImageView::Scl(Seq::empty())
        } else {
            img@ == ImageView::Trd(
                crate::trd::TrdView { disk_type: geometry, bytes: crate::trd::trd_blank(geometry, Seq::empty()) },
            )
        }),
        read matches TargetRead::Failed ==> r == Err::<Image, i32>(E_EOPEN),
{
    match read {
        TargetRead::Read(bytes) => match Image::from_bytes(bytes.as_slice(), Some(ext)) {
            Ok(img) => Ok(img),
            Err(_) => Err(E_BAD_ARCHIVE),
        },
        TargetRead::Missing => Ok(Image::blank_for_ext_with(ext, geometry)),
        TargetRead::Failed => Err(E_EOPEN),
    }
}

/// One step of packing: add the host file `rel` (packed under its basename)
/// whose read gave `data` (`None`: it could not be read). Returns the code
/// that ends the packing - `E_EREAD` for an unreadable file, the code of the
/// image's refusal - or `None` when the file went in; a refused file leaves
/// the image as it was.
pub fn pack_one(image: &mut Image, rel: &str, data: Option<Vec<u8>>) -> (r: Option<i32>)
    requires
        old(image).wf(),
    ensures
        final(image).wf(),
        data is None ==> r == Some(E_EREAD) && final(image)@ == old(image)@,
        data matches Some(d) ==> match crate::image::image_added(
            old(image)@,
            packed_file(vstd::utf8::encode_utf8(crate::paths::basename_of(rel@)), d@),
        ) {
            Ok(v) => r is None && final(image)@ == v,
            Err(e) => r == Some(core_err_code(e)) && final(image)@ == old(image)@,
        },
{
    match data {
        None => Some(E_EREAD),
        Some(d) => {
            let name = crate::paths::basename(rel);
            let f = pack_file(name.as_str(), d);
            match image.add_file(&f) {
                Ok(()) => None,
                Err(e) => Some(map_core_err(e)),
            }
        },
    }
}

/// Packing a hobeta file restores the file it was made from losslessly -
/// name (a marker first byte aside), type, start address and length, with
/// its data padded to whole sectors - whatever the host file is called.
pub proof fn lemma_packed_hobeta_is_lossless(name: Seq<u8>, f: TrFileView)
    requires
        f.name.len() == 8,
    ensures
        packed_file(name, hobeta_bytes(f)) == (TrFileView {
            name: crate::entry::fix_first(f.name),
            file_type: f.file_type,
            start: f.start,
            length: f.length,
            sectors: crate::hobeta::hobeta_sectors(f),
            deleted: false,
            data: crate::bytes::fit(f.data, crate::hobeta::hobeta_sectors(f) * 256),
        }),
{
    crate::hobeta::lemma_wrap_parse(f);
}

/// A list name with `/` written as `\`, the separator the image folders use.
pub open spec fn backslashed(s: Seq<char>) -> Seq<char> {
    s.map_values(|c: char| if c == '/' { '\\' } else { c })
}

/// Whether a list name lies in the virtual `deleted\` folder.
pub open spec fn in_deleted_dir(s: Seq<char>) -> bool {
    s.len() >= 8 && s.take(8) == deleted_dir()
}

/// The image after deleting each listed name in turn; names in the virtual
/// `deleted\` folder are recovered files, read-only, and skipped.
pub open spec fn deletions(v: ImageView, names: Seq<Seq<char>>, mode: ExtMode) -> ImageView
    decreases names.len(),
{
    if names.len() == 0 {
        v
    } else {
        let n = backslashed(names[0]);
        let v1 = if in_deleted_dir(n) {
            v
        } else {
            image_deleted(v, n, mode)
        };
        deletions(v1, names.drop_first(), mode)
    }
}

/// The code a deletion reports: refused when the selection is nothing but
/// already-deleted (recovered) entries, else success.
pub open spec fn deletion_code(names: Seq<Seq<char>>) -> i32 {
    if names.len() > 0 && forall|i: int| 0 <= i < names.len() ==> in_deleted_dir(backslashed(#[trigger] names[i])) {
        E_NOT_SUPPORTED
    } else {
        E_SUCCESS
    }
}

/// `s` with every `/` replaced by `\`.
#[verifier::spinoff_prover]
fn with_backslashes(s: &str) -> (r: String)
    ensures
        r@ == backslashed(s@),
{
    let cs = chars_of(s);
    proof {
        reveal_strlit("\\");
    }
    let mut out = String::new();
    let mut seg: usize = 0;
    let mut i: usize = 0;
    while i < cs.len()
        invariant
            cs@ == s@,
            seg <= i <= cs@.len(),
            out@ + s@.subrange(seg as int, i as int) == backslashed(s@).take(i as int),
            forall|j: int| seg <= j < i ==> s@[j] != '/',
            "\\"@ == seq!['\\'],
        decreases cs@.len() - i,
    {
        let ghost pre = out@;
        let ghost seg0 = seg;
        if cs[i] == '/' {
            out.append(s.substring_char(seg, i));
            out.append("\\");
            seg = i + 1;
            proof {
                assert(backslashed(s@)[i as int] == '\\');
                assert(backslashed(s@).take(i + 1) =~= backslashed(s@).take(i as int).push('\\'));
                assert(out@ =~= pre + s@.subrange(seg0 as int, i as int) + seq!['\\']);
                assert(s@.subrange(seg as int, i + 1) =~= Seq::<char>::empty());
            }
        } else {
            proof {
                assert(backslashed(s@)[i as int] == s@[i as int]);
                assert(backslashed(s@).take(i + 1) =~= backslashed(s@).take(i as int).push(s@[i as int]));
                assert(s@.subrange(seg as int, i + 1) =~= s@.subrange(seg as int, i as int).push(s@[i as int]));
            }
        }
        i = i + 1;
        proof {
            assert(out@ + s@.subrange(seg as int, i as int) =~= backslashed(s@).take(i as int));
        }
    }
    out.append(s.substring_char(seg, cs.len()));
    proof {
        assert(backslashed(s@).take(i as int) =~= backslashed(s@));
    }
    out
}

/// Whether a name starts with `deleted\`.
fn starts_deleted(s: &String) -> (r: bool)
    ensures
        r == in_deleted_dir(s@),
{
    let cs = chars_of(s.as_str());
    proof {
        reveal_strlit("deleted\\");
    }
    if cs.len() < 8 {
        return false;
    }
    let p = sub_str_chars(&cs, 8);
    assert(p@ =~= s@.take(8));
    crate::text::chars_eq(&p, "deleted\\")
}

/// The first `n` characters.
fn sub_str_chars(cs: &Vec<char>, n: usize) -> (r: Vec<char>)
    requires
        n <= cs@.len(),
    ensures
        r@ == cs@.take(n as int),
{
    let mut r: Vec<char> = Vec::new();
    let mut i: usize = 0;
    while i < n
        invariant
            i <= n <= cs@.len(),
            r@ == cs@.take(i as int),
        decreases n - i,
    {
        r.push(cs[i]);
        i = i + 1;
        assert(r@ =~= cs@.take(i as int));
    }
    r
}

/// Delete every listed file from an image (names in the virtual `deleted\`
/// folder are read-only and skipped), and say what to report: refused when
/// nothing but recovered entries was selected, else success.
#[verifier::spinoff_prover]
pub fn delete_listed(img: &mut Image, list: &Vec<String>, mode: ExtMode) -> (r: i32)
    requires
        old(img).wf(),
    ensures
        final(img).wf(),
        final(img)@ == deletions(old(img)@, texts(list@), mode),
        r == deletion_code(texts(list@)),
{
    let ghost names = texts(list@);
    let ghost start = img@;
    let mut skipped: usize = 0;
    let mut i: usize = 0;
    assert(names.skip(0) =~= names);
    while i < list.len()
        invariant
            names == texts(list@),
            i <= list@.len(),
            skipped <= i,
            img.wf(),
            deletions(img@, names.skip(i as int), mode) == deletions(start, names, mode),
            (skipped == i) == (forall|j: int| 0 <= j < i ==> in_deleted_dir(backslashed(#[trigger] names[j]))),
        decreases list@.len() - i,
    {
        let name = with_backslashes(list[i].as_str());
        proof {
            assert(names.skip(i as int)[0] == names[i as int]);
            assert(names.skip(i as int).drop_first() =~= names.skip(i + 1));
        }
        if starts_deleted(&name) {
            skipped = skipped + 1;
        } else {
            img.delete_file_with(name.as_str(), mode);
        }
        i = i + 1;
    }
    proof {
        assert(names.skip(i as int) =~= Seq::<Seq<char>>::empty());
    }
    if list.len() > 0 && skipped == list.len() {
        E_NOT_SUPPORTED
    } else {
        E_SUCCESS
    }
}

/// One entry's header as the archive reports it: its listed name, its size,
/// and whether it is a deleted (recoverable, read-only) file.
pub struct EntryHeader {
    pub name: String,
    pub size: usize,
    pub deleted: bool,
}

/// The file attribute reported for an entry: archive, and read-only for a
/// deleted one.
pub open spec fn attr_of(deleted: bool) -> i32 {
    if deleted {
        0x21
    } else {
        0x20
    }
}

/// The file attribute reported for an entry.
pub fn file_attr(deleted: bool) -> (r: i32)
    ensures
        r == attr_of(deleted),
{
    if deleted {
        0x21
    } else {
        0x20
    }
}

/// What processing the current entry gives: nothing to write (skipped or
/// tested), the bytes to write, or a broken walk (nothing was reported).
pub enum Processed {
    Skipped,
    Write(Vec<u8>),
    NoEntry,
}

/// An open archive being walked the way the file manager does it: read a
/// header, then process (skip or extract) that entry, until the end.
pub struct Listing {
    entries: Vec<TrFile>,
    names: Vec<String>,
    hobeta: bool,
    index: usize,
    current: usize,
}

/// The state of a walk: the entries, their listed names, the extraction
/// mode, the next entry to report and the one last reported.
pub ghost struct ListingView {
    pub entries: Seq<TrFileView>,
    pub names: Seq<Seq<char>>,
    pub hobeta: bool,
    pub index: int,
    pub current: int,
}

impl View for Listing {
    type V = ListingView;

    closed spec fn view(&self) -> ListingView {
        ListingView {
            entries: views(self.entries@),
            names: texts(self.names@),
            hobeta: self.hobeta,
            index: self.index as int,
            current: self.current as int,
        }
    }
}

impl Listing {
    #[verifier::type_invariant]
    spec fn aligned(&self) -> bool {
        &&& self.names@.len() == self.entries@.len()
        &&& self.entries@.len() + 3 <= u64::MAX
        &&& self.entries@.len() < usize::MAX
        &&& self.current <= self.entries@.len()
    }

    /// Start walking the entries of an archive, listed with names for the
    /// extraction mode (names in `mode`). `None` only past the machine's
    /// limits (more entries than a count can hold).
    pub fn new(entries: Vec<TrFile>, hobeta: bool, mode: ExtMode) -> (r: Option<Listing>)
        ensures
            (r is Some) == (entries@.len() + 3 <= u64::MAX && entries@.len() < usize::MAX),
            r matches Some(l) ==> l@ == (ListingView {
                entries: views(entries@),
                names: names_upto(views(entries@), hobeta, mode, entries@.len()),
                hobeta,
                index: 0,
                current: 0,
            }),
    {
        if entries.len() == usize::MAX || entries.len() as u64 > u64::MAX - 3 {
            return None;
        }
        let names = build_names_with(&entries, hobeta, mode);
        proof {
            lemma_names_distinct(views(entries@), hobeta, mode, entries@.len());
        }
        Some(Listing { entries, names, hobeta, index: 0, current: 0 })
    }

    /// Report the next entry's header (and make it the one to process), or
    /// `None` at the end of the archive.
    pub fn next_header(&mut self) -> (r: Option<EntryHeader>)
        ensures
            old(self)@.index >= old(self)@.entries.len() ==> r is None && final(self)@ == old(self)@,
            old(self)@.index < old(self)@.entries.len() ==> (r matches Some(h) && {
                let i = old(self)@.index;
                &&& h.name@ == old(self)@.names[i]
                &&& h.size == extracted_len_of(old(self)@.entries[i], old(self)@.hobeta)
                &&& h.deleted == old(self)@.entries[i].deleted
                &&& final(self)@ == (ListingView { current: i, ..old(self)@ })
            }),
    {
        proof {
            use_type_invariant(&*self);
        }
        if self.index >= self.entries.len() {
            return None;
        }
        self.current = self.index;
        let e = &self.entries[self.index];
        let size = extracted_len(e, self.hobeta);
        let name = self.names[self.index].clone();
        proof {
            assert(texts(self.names@)[self.index as int] == self.names@[self.index as int]@);
        }
        Some(EntryHeader { name, size, deleted: e.deleted })
    }

    /// Process the entry last reported - extract it (the bytes to write) or
    /// skip it - and move on to the next one.
    pub fn process(&mut self, extract: bool) -> (r: Processed)
        ensures
            final(self)@ == (ListingView { index: old(self)@.current + 1, ..old(self)@ }),
            !extract ==> r is Skipped,
            extract && old(self)@.current >= old(self)@.entries.len() ==> r is NoEntry,
            extract && old(self)@.current < old(self)@.entries.len() ==> (r matches Processed::Write(b)
                && b@ == if old(self)@.hobeta {
                hobeta_bytes(old(self)@.entries[old(self)@.current])
            } else {
                old(self)@.entries[old(self)@.current].data
            }),
    {
        proof {
            use_type_invariant(&*self);
        }
        let idx = self.current;
        let r = if extract {
            if idx >= self.entries.len() {
                Processed::NoEntry
            } else {
                Processed::Write(encode_entry(&self.entries[idx], self.hobeta))
            }
        } else {
            Processed::Skipped
        };
        self.index = idx + 1;
        r
    }
}

} // verus!
