//! What the SCL operations promise together: bytes written by
//! [`crate::scl::SclArchive::to_bytes`] read back as the same files.
use vstd::prelude::*;
use crate::bytes::u16_at;
use crate::entry::{ceil_sectors, TrFileView};
use crate::entry::{display_name_of, hobeta_name_of, lemma_file_answers_to_its_names, ExtMode};
use crate::scl::{
    scl_added, scl_bytes, scl_catalog_fits, scl_data_off, scl_datas, scl_desc, scl_descs,
    scl_file_at, scl_files, scl_first_named_from, scl_magic, scl_magic_ok,
    scl_padded, scl_renamed,
};

verus! {

/// A file fits an SCL archive: an 8-byte name and at most 255 sectors of data.
pub open spec fn scl_storable(f: TrFileView) -> bool {
    f.name.len() == 8 && f.data.len() <= 255 * 256
}

/// The file an archive reads back for a stored `f`: same name, type, start and
/// byte length, the sector count of its data, not deleted, data padded to
/// whole sectors.
pub open spec fn scl_stored(f: TrFileView) -> TrFileView {
    TrFileView {
        sectors: ceil_sectors(f.data.len() as int) as u8,
        deleted: false,
        data: scl_padded(f),
        ..f
    }
}

proof fn lemma_descs(fs: Seq<TrFileView>, i: int, j: int)
    requires
        forall|k: int| 0 <= k < fs.len() ==> (#[trigger] fs[k]).name.len() == 8,
        0 <= i < fs.len(),
        0 <= j < 14,
    ensures
        scl_descs(fs).len() == 14 * fs.len(),
        scl_descs(fs)[14 * i + j] == scl_desc(fs[i])[j],
    decreases fs.len(),
{
    lemma_descs_len(fs);
    let d = fs.drop_last();
    lemma_descs_len(d);
    assert(scl_desc(fs.last()).len() == 14);
    if i < fs.len() - 1 {
        assert(d[i] == fs[i]);
        lemma_descs(d, i, j);
    }
}

proof fn lemma_descs_len(fs: Seq<TrFileView>)
    requires
        forall|k: int| 0 <= k < fs.len() ==> (#[trigger] fs[k]).name.len() == 8,
    ensures
        scl_descs(fs).len() == 14 * fs.len(),
    decreases fs.len(),
{
    if fs.len() > 0 {
        let d = fs.drop_last();
        assert forall|k: int| 0 <= k < d.len() implies (#[trigger] d[k]).name.len() == 8 by {
            assert(d[k] == fs[k]);
        }
        lemma_descs_len(d);
        assert(fs[fs.len() - 1].name.len() == 8);
    }
}

proof fn lemma_datas_prefix(fs: Seq<TrFileView>, i: int)
    requires
        0 <= i <= fs.len(),
    ensures
        scl_datas(fs).len() >= scl_datas(fs.take(i)).len(),
        scl_datas(fs).take(scl_datas(fs.take(i)).len() as int) == scl_datas(fs.take(i)),
    decreases fs.len() - i,
{
    if i == fs.len() {
        assert(fs.take(i) =~= fs);
        assert(scl_datas(fs).take(scl_datas(fs).len() as int) =~= scl_datas(fs));
    } else {
        lemma_datas_prefix(fs, i + 1);
        let a = scl_datas(fs.take(i));
        let b = scl_datas(fs.take(i + 1));
        assert(fs.take(i + 1).drop_last() =~= fs.take(i));
        assert(b == a + scl_padded(fs.take(i + 1).last()));
        assert(scl_datas(fs).take(a.len() as int) =~= b.take(a.len() as int));
        assert(b.take(a.len() as int) =~= a);
    }
}

proof fn lemma_data_off(fs: Seq<TrFileView>, i: int)
    requires
        fs.len() <= 255,
        forall|k: int| 0 <= k < fs.len() ==> scl_storable(#[trigger] fs[k]),
        0 <= i <= fs.len(),
    ensures
        scl_data_off(scl_bytes(fs), i) == 9 + 14 * fs.len() + scl_datas(fs.take(i)).len(),
    decreases i,
{
    let b = scl_bytes(fs);
    assert forall|k: int| 0 <= k < fs.len() implies (#[trigger] fs[k]).name.len() == 8 by {
        assert(scl_storable(fs[k]));
    }
    lemma_descs_len(fs);
    assert(b[8] == fs.len() as u8);
    if i == 0 {
        assert(fs.take(0) =~= Seq::<TrFileView>::empty());
    } else {
        lemma_data_off(fs, i - 1);
        lemma_descs(fs, i - 1, 13);
        let p = 9 + 14 * (i - 1) + 13;
        assert(b[p] == scl_descs(fs)[14 * (i - 1) + 13]);
        assert(scl_storable(fs[i - 1]));
        assert(scl_desc(fs[i - 1])[13] == ceil_sectors(fs[i - 1].data.len() as int) as u8);
        assert(fs.take(i).drop_last() =~= fs.take(i - 1));
        assert(fs.take(i).last() == fs[i - 1]);
    }
}

/// The padded data of storable files takes at most 255 sectors a file.
proof fn lemma_datas_len_bound(fs: Seq<TrFileView>)
    requires
        forall|k: int| 0 <= k < fs.len() ==> scl_storable(#[trigger] fs[k]),
    ensures
        scl_datas(fs).len() <= fs.len() * 65280,
    decreases fs.len(),
{
    if fs.len() > 0 {
        let f = fs.last();
        assert(scl_storable(fs[fs.len() - 1]));
        assert forall|k: int| 0 <= k < fs.drop_last().len() implies scl_storable(#[trigger] fs.drop_last()[k]) by {
            assert(fs.drop_last()[k] == fs[k]);
        }
        lemma_datas_len_bound(fs.drop_last());
        assert(ceil_sectors(f.data.len() as int) <= 255);
        assert(scl_padded(f).len() <= 65280);
    }
}

/// Writing files out as an SCL archive and reading the bytes back gives the
/// same files: name, type, start address and byte length as they were, the
/// sector count of their data, not deleted, and their data padded to whole
/// sectors. The magic and the whole catalog are there, and within these limits
/// the archive bytes always fit in memory (at most 2^32 - 1 of them).
pub proof fn lemma_scl_roundtrip(fs: Seq<TrFileView>)
    requires
        fs.len() <= 255,
        forall|k: int| 0 <= k < fs.len() ==> scl_storable(#[trigger] fs[k]),
    ensures
        scl_bytes(fs).len() <= u32::MAX,
        scl_magic_ok(scl_bytes(fs)),
        scl_catalog_fits(scl_bytes(fs)),
        scl_files(scl_bytes(fs)) == fs.map_values(|f: TrFileView| scl_stored(f)),
{
    lemma_datas_len_bound(fs);
    let b = scl_bytes(fs);
    let n = fs.len();
    assert forall|k: int| 0 <= k < n implies (#[trigger] fs[k]).name.len() == 8 by {
        assert(scl_storable(fs[k]));
    }
    lemma_descs_len(fs);
    let descs = scl_descs(fs);
    let datas = scl_datas(fs);
    assert(b.take(8) =~= scl_magic());
    assert(b[8] == n as u8);
    assert(b[8] == n);
    assert forall|i: int| 0 <= i < n implies #[trigger] scl_file_at(b, i) == scl_stored(fs[i]) by {
        let f = fs[i];
        let o = 9 + 14 * i;
        assert(scl_storable(f));
        assert forall|j: int| 0 <= j < 14 implies #[trigger] b[o + j] == scl_desc(f)[j] by {
            lemma_descs(fs, i, j);
        }
        let got = scl_file_at(b, i);
        assert(got.name =~= f.name) by {
            assert forall|j: int| 0 <= j < 8 implies got.name[j] == f.name[j] by {
                assert(b[o + j] == scl_desc(f)[j]);
            }
        }
        assert(b[o + 8] == scl_desc(f)[8]);
        assert(b[o + 9] == scl_desc(f)[9]);
        assert(b[o + 10] == scl_desc(f)[10]);
        assert(b[o + 11] == scl_desc(f)[11]);
        assert(b[o + 12] == scl_desc(f)[12]);
        assert(b[o + 13] == scl_desc(f)[13]);
        assert(u16_at(b, o + 9) == f.start);
        assert(u16_at(b, o + 11) == f.length);
        let c = ceil_sectors(f.data.len() as int);
        assert(b[o + 13] == c);
        lemma_data_off(fs, i);
        lemma_datas_prefix(fs, i + 1);
        let pre = scl_datas(fs.take(i));
        assert(fs.take(i + 1).drop_last() =~= fs.take(i));
        assert(fs.take(i + 1).last() == f);
        let off = scl_data_off(b, i);
        assert(off == 9 + 14 * n + pre.len());
        assert(got.data =~= scl_padded(f)) by {
            assert forall|j: int| 0 <= j < c * 256 implies got.data[j] == scl_padded(f)[j] by {
                let p = pre.len() + j;
                assert(scl_datas(fs.take(i + 1))[p] == scl_padded(f)[j]);
                assert(datas[p] == scl_datas(fs.take(i + 1))[p]);
                assert(b[off + j] == datas[p]);
            }
        }
    }
    assert(scl_files(b) =~= fs.map_values(|f: TrFileView| scl_stored(f)));
}

/// Files an SCL archive can hold: at most 255 of them, each storable.
pub open spec fn scl_within(fs: Seq<TrFileView>) -> bool {
    &&& fs.len() <= 255
    &&& forall|k: int| 0 <= k < fs.len() ==> scl_storable(#[trigger] fs[k])
}

/// The archive bytes of files within the limits fit in memory.
pub proof fn lemma_within_fits(fs: Seq<TrFileView>)
    requires
        scl_within(fs),
    ensures
        scl_bytes(fs).len() <= u32::MAX,
{
    lemma_scl_roundtrip(fs);
}

/// The files read from an archive whose magic and catalog are there are within
/// the limits.
pub proof fn lemma_read_within(b: Seq<u8>)
    requires
        scl_magic_ok(b),
        scl_catalog_fits(b),
    ensures
        scl_within(scl_files(b)),
{
    let fs = scl_files(b);
    assert forall|k: int| 0 <= k < fs.len() implies scl_storable(#[trigger] fs[k]) by {
        let o = 9 + 14 * k;
        assert(o + 14 <= b.len());
        assert(fs[k] == scl_file_at(b, k));
        assert(scl_file_at(b, k).name.len() == 8);
        assert(b[o + 13] * 256 <= 255 * 256);
    }
}

/// An added file keeps the archive within the limits.
pub proof fn lemma_add_within(fs: Seq<TrFileView>, f: TrFileView)
    requires
        scl_within(fs),
        fs.len() < 255,
        f.name.len() == 8,
        f.data.len() <= 255 * 256,
    ensures
        scl_within(fs.push(scl_added(f))),
{
    let g = fs.push(scl_added(f));
    assert forall|k: int| 0 <= k < g.len() implies scl_storable(#[trigger] g[k]) by {
        if k < fs.len() {
            assert(g[k] == fs[k]);
        }
    }
}

/// A renamed file keeps the archive within the limits.
pub proof fn lemma_rename_within(fs: Seq<TrFileView>, k: int, new_bs: Seq<u8>)
    requires
        scl_within(fs),
        0 <= k < fs.len(),
    ensures
        scl_within(fs.update(k, scl_renamed(fs[k], new_bs))),
{
    let g = fs.update(k, scl_renamed(fs[k], new_bs));
    assert(scl_storable(fs[k]));
    assert forall|j: int| 0 <= j < g.len() implies scl_storable(#[trigger] g[j]) by {
        if j != k {
            assert(g[j] == fs[j]);
        }
    }
}

/// Removing a file keeps the archive within the limits.
pub proof fn lemma_remove_within(fs: Seq<TrFileView>, k: int)
    requires
        scl_within(fs),
        0 <= k < fs.len(),
    ensures
        scl_within(fs.remove(k)),
{
    let g = fs.remove(k);
    assert forall|j: int| 0 <= j < g.len() implies scl_storable(#[trigger] g[j]) by {
        if j < k {
            assert(g[j] == fs[j]);
        } else {
            assert(g[j] == fs[j + 1]);
        }
    }
}

/// The file a name finds is one of the archive's files.
pub proof fn lemma_first_named_in(fs: Seq<TrFileView>, target: Seq<char>, mode: ExtMode, k: int)
    requires
        0 <= k,
    ensures
        scl_first_named_from(fs, k, target, mode) == -1 || k <= scl_first_named_from(fs, k, target, mode)
            < fs.len(),
    decreases fs.len() - k,
{
    if k < fs.len() && !crate::entry::names_file(fs[k], target, mode) {
        lemma_first_named_in(fs, target, mode, k + 1);
    }
}

/// A file of an archive is found by its hobeta name `NAME.$T` and by its
/// display name: a search for either finds it or an earlier file of that name,
/// so removing or renaming by the name a listing shows always works.
pub proof fn lemma_file_is_found(fs: Seq<TrFileView>, k: int, mode: ExtMode)
    requires
        0 <= k < fs.len(),
    ensures
        0 <= scl_first_named_from(fs, 0, hobeta_name_of(fs[k]), mode) <= k,
        0 <= scl_first_named_from(fs, 0, display_name_of(fs[k], mode), mode) <= k,
{
    lemma_file_answers_to_its_names(fs[k], mode);
    lemma_scl_found_by_or_before(fs, 0, k, hobeta_name_of(fs[k]), mode);
    lemma_scl_found_by_or_before(fs, 0, k, display_name_of(fs[k], mode), mode);
}

proof fn lemma_scl_found_by_or_before(fs: Seq<TrFileView>, j: int, k: int, target: Seq<char>, mode: ExtMode)
    requires
        0 <= j <= k < fs.len(),
        crate::entry::names_file(fs[k], target, mode),
    ensures
        j <= scl_first_named_from(fs, j, target, mode) <= k,
    decreases k - j,
{
    if !crate::entry::names_file(fs[j], target, mode) {
        lemma_scl_found_by_or_before(fs, j + 1, k, target, mode);
    }
}

/// Renaming a file to a host name gives it the name and type that name
/// spells, as TR-DOS keeps them: its stem (8 bytes, space-padded, a marker
/// first byte turned into `_`), the first extension byte as type (`C` when the
/// extension is neither 1 nor 3 bytes long), and, for a 3-byte extension, the
/// other two bytes as start address (low byte first); every other field stays.
pub proof fn lemma_scl_rename_spells_the_new_name(f: TrFileView, new_bs: Seq<u8>)
    ensures
        ({
            let (stem, ext) = crate::entry::stem_ext(new_bs);
            let g = scl_renamed(f, new_bs);
            &&& g.name == crate::entry::fix_first(crate::entry::name8(stem))
            &&& ext.len() == 1 ==> g.file_type == ext[0] && g.start == f.start
            &&& ext.len() == 3 ==> g.file_type == ext[0] && g.start == ext[1] + 256 * ext[2]
            &&& ext.len() != 1 && ext.len() != 3 ==> g.file_type == 67 && g.start == f.start
            &&& g.length == f.length && g.sectors == f.sectors
            &&& g.deleted == f.deleted && g.data == f.data
        }),
{
    let (stem, ext) = crate::entry::stem_ext(new_bs);
    if ext.len() == 3 {
        assert(ext[1] + 256 * ext[2] <= 65535);
    }
}

/// An added file keeps the byte length it was given (as a hobeta header
/// carries it); only a file given no length (0) gets the length of its data,
/// capped at 65535. Its data, type and start stay; it counts the sectors of
/// its data and is live.
pub proof fn lemma_scl_add_keeps_the_length(f: TrFileView)
    ensures
        f.length != 0 ==> scl_added(f).length == f.length,
        f.length == 0 ==> scl_added(f).length == if f.data.len() > 65535 {
            65535
        } else {
            f.data.len() as int
        },
        scl_added(f).data == f.data,
        scl_added(f).file_type == f.file_type,
        scl_added(f).start == f.start,
        scl_added(f).sectors == ceil_sectors(f.data.len() as int) as u8,
        !scl_added(f).deleted,
{
}

} // verus!
