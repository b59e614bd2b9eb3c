//! What the TRD operations promise together: the free-sector accounting of an
//! add, what the catalog reads back after an add, an erase or a rename, and
//! that an image written out reads back as itself.
use vstd::prelude::*;
use crate::bytes::{fit, grown, splice, u16_at};
use crate::entry::{ceil_sectors, fix_first, split_name_type_spec, TrFileView};
use crate::trd::{
    cat_end_from, cat_len, disk_type_of, entry_at, first_named, first_named_from, free_count,
    free_lin, lemma_cat_end_from, live_named, add_stage1, add_stage2, entry_record, sectors_at,
    size_of_disk, slot, tracks_of, trd_add, trd_add_bytes, trd_blank, trd_entries, trd_erase_bytes,
    slot_probe, trd_open, trd_rename_bytes, DiskType, MIN_IMAGE_LEN, OFF_DELETED_COUNT, OFF_DISK_TYPE,
    OFF_FIRST_FREE_SECTOR, OFF_FIRST_FREE_TRACK, OFF_FREE_SECTORS, OFF_NUM_FILES, OFF_TRDOS_ID,
    TRDOS_ID,
};
use crate::entry::{display_name_of, hobeta_name_of, lemma_file_answers_to_its_names, ExtMode};

verus! {

/// Slots before the catalog end are all in use.
proof fn lemma_cat_end_nonzero(s: Seq<u8>, k: int)
    requires
        0 <= k <= 128,
    ensures
        forall|j: int| k <= j < cat_end_from(s, k) ==> #[trigger] s[slot(j)] != 0,
    decreases 128 - k,
{
    lemma_cat_end_from(s, k);
    if k < 128 && s[slot(k)] != 0 {
        lemma_cat_end_nonzero(s, k + 1);
    }
}

/// The catalog ends at `m` when slots `k..m` are in use and slot `m` is free
/// (or `m` is 128).
proof fn lemma_cat_end_is(s: Seq<u8>, k: int, m: int)
    requires
        0 <= k <= m <= 128,
        forall|j: int| k <= j < m ==> #[trigger] s[slot(j)] != 0,
        m < 128 ==> s[slot(m)] == 0,
    ensures
        cat_end_from(s, k) == m,
    decreases m - k,
{
    if k < m {
        lemma_cat_end_is(s, k + 1, m);
    }
}

/// A catalog end computed on two images is the same when their slot bytes agree.
proof fn lemma_cat_len_same(a: Seq<u8>, b: Seq<u8>)
    requires
        a.len() >= MIN_IMAGE_LEN,
        b.len() >= MIN_IMAGE_LEN,
        forall|j: int| 0 <= j < 128 ==> (#[trigger] a[slot(j)] == 0) == (b[slot(j)] == 0),
    ensures
        cat_len(a) == cat_len(b),
{
    lemma_cat_end_from(a, 0);
    lemma_cat_end_nonzero(a, 0);
    let m = cat_len(a);
    if m < 128 {
        lemma_cat_end_from_zero(a, 0);
    }
    assert forall|j: int| 0 <= j < m implies #[trigger] b[slot(j)] != 0 by {
        assert(a[slot(j)] != 0);
    }
    lemma_cat_end_is(b, 0, m);
}

/// Where the catalog ends (before 128), that slot is free.
proof fn lemma_cat_end_from_zero(s: Seq<u8>, k: int)
    requires
        0 <= k <= 128,
        cat_end_from(s, k) < 128,
    ensures
        s[slot(cat_end_from(s, k))] == 0,
    decreases 128 - k,
{
    lemma_cat_end_from(s, k);
    if k < 128 && s[slot(k)] != 0 {
        lemma_cat_end_from_zero(s, k + 1);
    }
}

/// An image is well laid out for appending when its catalog holds exactly the
/// recorded number of files, every file lies on a data track (track >= 1), and
/// every file ends at or before the free pointer, which is itself on a data
/// track.
pub open spec fn laid_out(s: Seq<u8>) -> bool {
    let num = s[OFF_NUM_FILES as int] as int;
    &&& s.len() >= MIN_IMAGE_LEN
    &&& num < 128
    &&& cat_len(s) == num
    &&& s[OFF_FIRST_FREE_TRACK as int] >= 1
    &&& forall|k: int|
        0 <= k < num ==> {
            &&& #[trigger] s[slot(k) + 15] >= 1
            &&& s[slot(k) + 15] * 16 + s[slot(k) + 14] + s[slot(k) + 13] <= free_lin(s)
        }
}

/// The catalog entry an added file reads back as: its name with a marker first
/// byte turned into `_`, its type, start address and byte length, the sectors
/// it took, not deleted, and its data zero-padded to whole sectors.
pub open spec fn added_entry(f: TrFileView) -> TrFileView {
    let need = ceil_sectors(f.data.len() as int);
    TrFileView {
        name: fix_first(f.name),
        file_type: f.file_type,
        start: f.start,
        length: f.length,
        sectors: need as u8,
        deleted: false,
        data: fit(f.data, need * 256),
    }
}

/// Below offset 4096 (the catalog and the info sector) the record and data
/// writes of an add change only the new record's slot.
proof fn lemma_stage2_low(s: Seq<u8>, f: TrFileView, p: int)
    requires
        s.len() >= MIN_IMAGE_LEN,
        s[OFF_NUM_FILES as int] < 128,
        s[OFF_FIRST_FREE_TRACK as int] >= 1,
        f.name.len() == 8,
        0 <= p < s.len(),
        p < 4096,
        !(slot(s[OFF_NUM_FILES as int] as int) <= p < slot(s[OFF_NUM_FILES as int] as int) + 16),
    ensures
        add_stage2(s, f)[p] == s[p],
        add_stage2(s, f).len() >= s.len(),
{
    let need = ceil_sectors(f.data.len() as int);
    let lin = free_lin(s);
    let g = grown(s, (lin + need) * 256);
    assert(g[p] == s[p]);
    let rec = entry_record(f, need, s[OFF_FIRST_FREE_SECTOR as int], s[OFF_FIRST_FREE_TRACK as int]);
    assert(rec.len() == 16);
    let s1 = add_stage1(s, f);
    assert(s1[p] == g[p]);
    assert(lin * 256 >= 4096);
}

/// Adding a file to a well laid out image takes exactly the sectors its data
/// needs off the free-sector count and counts one more file.
pub proof fn lemma_add_accounting(s: Seq<u8>, f: TrFileView)
    requires
        laid_out(s),
        f.name.len() == 8,
        trd_add(s, f) is Ok,
    ensures
        free_count(trd_add_bytes(s, f)) == free_count(s) - ceil_sectors(f.data.len() as int),
        trd_add_bytes(s, f)[OFF_NUM_FILES as int] == s[OFF_NUM_FILES as int] + 1,
{
    let need = ceil_sectors(f.data.len() as int);
    let s2 = add_stage2(s, f);
    lemma_stage2_low(s, f, OFF_FREE_SECTORS as int);
    lemma_stage2_low(s, f, OFF_FREE_SECTORS + 1);
    assert(free_count(s2) == free_count(s));
    let free = (free_count(s2) - need) % 0x10000;
    assert(free == free_count(s) - need);
    let t = trd_add_bytes(s, f);
    assert(u16_at(t, OFF_FREE_SECTORS as int) == free);
}

/// From offset 4096 on an add leaves the bytes before the free pointer as they
/// were (zero past the old end) and puts the padded data at the free pointer.
proof fn lemma_add_high(s: Seq<u8>, f: TrFileView, q: int)
    requires
        s.len() >= MIN_IMAGE_LEN,
        s[OFF_NUM_FILES as int] < 128,
        s[OFF_FIRST_FREE_TRACK as int] >= 1,
        f.name.len() == 8,
        f.data.len() <= 255 * 256,
        4096 <= q,
    ensures
        trd_add_bytes(s, f).len() == grown(
            s,
            (free_lin(s) + ceil_sectors(f.data.len() as int)) * 256,
        ).len(),
        q < trd_add_bytes(s, f).len() && q < free_lin(s) * 256 ==> trd_add_bytes(s, f)[q] == (
        if q < s.len() {
            s[q]
        } else {
            0u8
        }),
        free_lin(s) * 256 <= q < (free_lin(s) + ceil_sectors(f.data.len() as int)) * 256 ==> trd_add_bytes(s, f)[q]
            == fit(f.data, ceil_sectors(f.data.len() as int) * 256)[q - free_lin(s) * 256],
{
    let need = ceil_sectors(f.data.len() as int);
    let lin = free_lin(s);
    let g = grown(s, (lin + need) * 256);
    let num = s[OFF_NUM_FILES as int] as int;
    let rec = entry_record(f, need, s[OFF_FIRST_FREE_SECTOR as int], s[OFF_FIRST_FREE_TRACK as int]);
    assert(rec.len() == 16);
    let s1 = add_stage1(s, f);
    let s2 = add_stage2(s, f);
    let fd = fit(f.data, need * 256);
    assert(s1.len() == g.len());
    assert(s2.len() == g.len());
    let t = trd_add_bytes(s, f);
    assert(t.len() == s2.len());
    if q < t.len() {
        assert(t[q] == s2[q]);
        assert(s1[q] == g[q]);
        if q < lin * 256 {
            assert(s2[q] == s1[q]);
        }
        if lin * 256 <= q < (lin + need) * 256 {
            assert(s2[q] == fd[q - lin * 256]);
        }
    }
}

/// Adding a file to a well laid out image leaves every earlier entry as it was
/// and reads the new file back as the last entry: its name (a marker first byte
/// turned into `_`), type, start address, byte length and sector count, not
/// deleted, with its data padded to whole sectors.
#[verifier::rlimit(80)]
pub proof fn lemma_add_entries(s: Seq<u8>, f: TrFileView)
    requires
        laid_out(s),
        f.name.len() == 8,
        trd_add(s, f) is Ok,
    ensures
        trd_entries(trd_add_bytes(s, f)) == trd_entries(s).push(added_entry(f)),
{
    let t = trd_add_bytes(s, f);
    let num = s[OFF_NUM_FILES as int] as int;
    let need = ceil_sectors(f.data.len() as int);
    let lin = free_lin(s);
    lemma_add_high(s, f, 4096);
    assert(t.len() >= s.len());
    // Slot bytes.
    assert forall|p: int| 0 <= p < slot(num) implies #[trigger] t[p] == s[p] by {
        lemma_stage2_low(s, f, p);
    }
    let rec = entry_record(f, need, s[OFF_FIRST_FREE_SECTOR as int], s[OFF_FIRST_FREE_TRACK as int]);
    assert forall|p: int| slot(num) <= p < slot(num) + 16 implies #[trigger] t[p] == rec[p - slot(
        num,
    )] by {
        assert(rec.len() == 16);
        assert(add_stage1(s, f)[p] == rec[p - slot(num)]);
        assert(add_stage2(s, f)[p] == add_stage1(s, f)[p]);
    }
    lemma_cat_end_nonzero(s, 0);
    assert forall|j: int| 0 <= j < num + 1 implies #[trigger] t[slot(j)] != 0 by {
        if j < num {
            assert(t[slot(j)] == s[slot(j)]);
        } else {
            assert(t[slot(num)] == rec[0]);
        }
    }
    lemma_cat_end_is(t, 0, num + 1);
    assert(cat_len(t) == num + 1);
    // Earlier entries.
    assert forall|k: int| 0 <= k < num implies #[trigger] entry_at(t, k) == entry_at(s, k) by {
        let o = slot(k);
        assert(t.subrange(o, o + 8) =~= s.subrange(o, o + 8));
        assert(t[o + 8] == s[o + 8]);
        assert(t[o + 9] == s[o + 9]);
        assert(t[o + 10] == s[o + 10]);
        assert(t[o + 11] == s[o + 11]);
        assert(t[o + 12] == s[o + 12]);
        assert(t[o + 13] == s[o + 13]);
        assert(t[o + 14] == s[o + 14]);
        assert(t[o + 15] == s[o + 15]);
        let trk = s[o + 15];
        let sec = s[o + 14];
        let cnt = s[o + 13];
        assert(trk >= 1);
        let a = sectors_at(t, trk, sec, cnt);
        let b = sectors_at(s, trk, sec, cnt);
        assert forall|i: int| 0 <= i < a.len() implies a[i] == b[i] by {
            let q = (trk * 16 + sec) * 256 + i;
            assert(q >= 4096);
            assert(q < lin * 256) by {
                assert((trk * 16 + sec) * 256 + i < (trk * 16 + sec + cnt) * 256) by (nonlinear_arith)
                    requires
                        i < cnt * 256,
                ;
                assert((trk * 16 + sec + cnt) * 256 <= lin * 256) by (nonlinear_arith)
                    requires
                        trk * 16 + sec + cnt <= lin,
                ;
            }
            lemma_add_high(s, f, q);
        }
        assert(a =~= b);
    }
    // The new entry.
    let e = entry_at(t, num);
    let o = slot(num);
    assert(t.subrange(o, o + 8) =~= fix_first(f.name));
    assert(t[o + 13] == need as u8);
    assert(t[o + 14] == s[OFF_FIRST_FREE_SECTOR as int]);
    assert(t[o + 15] == s[OFF_FIRST_FREE_TRACK as int]);
    let fd = fit(f.data, need * 256);
    assert(e.data =~= fd) by {
        assert forall|i: int| 0 <= i < need * 256 implies e.data[i] == fd[i] by {
            lemma_add_high(s, f, lin * 256 + i);
        }
    }
    assert(e == added_entry(f));
    assert(trd_entries(t) =~= trd_entries(s).push(added_entry(f)));
}

/// The slot [`first_named_from`] finds is a live, named catalog entry.
proof fn lemma_first_named_from(s: Seq<u8>, k: int, target: Seq<char>, mode: ExtMode)
    requires
        0 <= k <= 128,
    ensures
        first_named_from(s, k, target, mode) == -1 || (k <= first_named_from(s, k, target, mode)
            < cat_len(s) && first_named_from(s, k, target, mode) < 128 && live_named(
            s,
            first_named_from(s, k, target, mode),
            target,
            mode,
        )),
    decreases 128 - k,
{
    if !(k >= cat_len(s) || k >= 128) && !live_named(s, k, target, mode) {
        lemma_first_named_from(s, k + 1, target, mode);
    }
}

/// Every catalog entry of `s` has its data on a data track (track >= 1).
pub open spec fn data_on_tracks(s: Seq<u8>) -> bool {
    forall|k: int| 0 <= k < cat_len(s) ==> #[trigger] s[slot(k) + 15] >= 1
}

/// Two images agree from offset 4096 on and have the same length: the data of
/// every entry on a data track reads the same from both.
proof fn lemma_same_data(a: Seq<u8>, b: Seq<u8>, k: int)
    requires
        a.len() == b.len(),
        a.len() >= MIN_IMAGE_LEN,
        0 <= k < 128,
        forall|q: int| 4096 <= q < a.len() ==> #[trigger] a[q] == b[q],
        a[slot(k) + 15] >= 1,
        a[slot(k) + 15] == b[slot(k) + 15],
        a[slot(k) + 14] == b[slot(k) + 14],
        a[slot(k) + 13] == b[slot(k) + 13],
    ensures
        entry_at(a, k).data == entry_at(b, k).data,
{
    let o = slot(k);
    let x = entry_at(a, k).data;
    let y = entry_at(b, k).data;
    assert forall|i: int| 0 <= i < x.len() implies x[i] == y[i] by {
        let q = (a[o + 15] * 16 + a[o + 14]) * 256 + i;
        assert(q >= 4096);
    }
    assert(x =~= y);
}

/// Erasing a file changes nothing in the catalog but the erased entry, which
/// now reads as deleted with 0x01 as its first name byte; its data, like that
/// of every other entry on a data track, stays readable (recoverable).
pub proof fn lemma_erase_entries(s: Seq<u8>, target: Seq<char>, mode: ExtMode)
    requires
        s.len() >= MIN_IMAGE_LEN,
        data_on_tracks(s),
        first_named(s, target, mode) >= 0,
    ensures
        ({
            let m = first_named(s, target, mode);
            let t = trd_erase_bytes(s, m);
            let old_e = trd_entries(s);
            let new_e = trd_entries(t);
            &&& new_e.len() == old_e.len()
            &&& forall|k: int| 0 <= k < old_e.len() && k != m ==> #[trigger] new_e[k] == old_e[k]
            &&& new_e[m] == TrFileView {
                name: old_e[m].name.update(0, 1u8),
                deleted: true,
                ..old_e[m]
            }
            &&& !old_e[m].deleted
        }),
{
    let m = first_named(s, target, mode);
    lemma_first_named_from(s, 0, target, mode);
    lemma_cat_end_from(s, 0);
    let t = trd_erase_bytes(s, m);
    lemma_cat_end_nonzero(s, 0);
    assert(s[slot(m)] != 0);
    assert forall|j: int| 0 <= j < 128 implies (#[trigger] s[slot(j)] == 0) == (t[slot(j)] == 0) by {
        if j == m {
        } else {
            assert(t[slot(j)] == s[slot(j)]);
        }
    }
    lemma_cat_len_same(s, t);
    assert forall|q: int| 0 <= q < s.len() && q != slot(m) && q != OFF_DELETED_COUNT implies #[trigger] t[q]
        == s[q] by {}
    assert forall|k: int| 0 <= k < cat_len(s) && k != m implies #[trigger] entry_at(t, k)
        == entry_at(s, k) by {
        let o = slot(k);
        assert(t.subrange(o, o + 8) =~= s.subrange(o, o + 8));
        assert(t[o + 8] == s[o + 8]);
        assert(t[o + 9] == s[o + 9]);
        assert(t[o + 10] == s[o + 10]);
        assert(t[o + 11] == s[o + 11]);
        assert(t[o + 12] == s[o + 12]);
        lemma_same_data(s, t, k);
    }
    lemma_same_data(s, t, m);
    let o = slot(m);
    assert(t.subrange(o, o + 8) =~= s.subrange(o, o + 8).update(0, 1u8));
    lemma_cat_end_from(s, 0);
}

/// Renaming a file changes nothing in the catalog but the renamed entry, whose
/// name (marker first byte turned into `_`) and type become those of the new
/// host name, whose start address changes only for a 3-char extension, and
/// whose length, sector count, live state and data stay.
pub proof fn lemma_rename_entries(s: Seq<u8>, target: Seq<char>, mode: ExtMode, new_bs: Seq<u8>)
    requires
        s.len() >= MIN_IMAGE_LEN,
        data_on_tracks(s),
        first_named(s, target, mode) >= 0,
    ensures
        ({
            let m = first_named(s, target, mode);
            let t = trd_rename_bytes(s, m, new_bs);
            let (nn, nt, ns) = split_name_type_spec(new_bs);
            let old_e = trd_entries(s);
            let new_e = trd_entries(t);
            &&& new_e.len() == old_e.len()
            &&& forall|k: int| 0 <= k < old_e.len() && k != m ==> #[trigger] new_e[k] == old_e[k]
            &&& new_e[m] == TrFileView {
                name: fix_first(nn),
                file_type: nt,
                start: match ns {
                    Some(a) => a,
                    None => old_e[m].start,
                },
                ..old_e[m]
            }
        }),
{
    let m = first_named(s, target, mode);
    lemma_first_named_from(s, 0, target, mode);
    lemma_cat_end_from(s, 0);
    let (nn, nt, ns) = split_name_type_spec(new_bs);
    let t = trd_rename_bytes(s, m, new_bs);
    let o = slot(m);
    let nm = fix_first(nn);
    assert(nm.len() == 8);
    let s1 = splice(s, o, nm).update(o + 8, nt);
    assert forall|q: int| 0 <= q < s.len() && !(o <= q < o + 11) implies #[trigger] t[q] == s[q] by {
        assert(s1[q] == s[q]);
    }
    lemma_cat_end_nonzero(s, 0);
    assert(t[o] == nm[0]);
    assert forall|j: int| 0 <= j < 128 implies (#[trigger] s[slot(j)] == 0) == (t[slot(j)] == 0) by {
        if j != m {
            assert(t[slot(j)] == s[slot(j)]);
        }
    }
    lemma_cat_len_same(s, t);
    assert forall|k: int| 0 <= k < cat_len(s) && k != m implies #[trigger] entry_at(t, k)
        == entry_at(s, k) by {
        let ok = slot(k);
        assert(t.subrange(ok, ok + 8) =~= s.subrange(ok, ok + 8));
        lemma_same_data(s, t, k);
    }
    assert(t.subrange(o, o + 8) =~= nm);
    lemma_same_data(s, t, m);
    match ns {
        Some(a) => {
            assert(u16_at(t, o + 9) == a);
        },
        None => {},
    }
    lemma_cat_end_from(s, 0);
    assert(trd_entries(t)[m] == entry_at(t, m));
}

/// An image whose bytes carry the TR-DOS id and the type byte of `dt`, and are
/// at least the nominal size of `dt`, reads back as exactly itself.
pub proof fn lemma_reopen(s: Seq<u8>, dt: DiskType)
    requires
        s.len() >= size_of_disk(dt),
        s[OFF_TRDOS_ID as int] == TRDOS_ID,
        disk_type_of(s[OFF_DISK_TYPE as int]) == Some(dt),
    ensures
        trd_open(s) == Ok::<(DiskType, Seq<u8>), crate::error::Error>((dt, s)),
{
    assert(grown(s, size_of_disk(dt)) == s);
}

/// A blank disk reads back as itself, with no entries and every sector beyond
/// track 0 free.
pub proof fn lemma_blank_reopens(dt: DiskType, label: Seq<u8>)
    ensures
        trd_open(trd_blank(dt, label)) == Ok::<(DiskType, Seq<u8>), crate::error::Error>(
            (dt, trd_blank(dt, label)),
        ),
        trd_entries(trd_blank(dt, label)).len() == 0,
        free_count(trd_blank(dt, label)) == (crate::trd::tracks_of(dt) - 1) * 16,
{
    let b = trd_blank(dt, label);
    assert(b[OFF_TRDOS_ID as int] == TRDOS_ID);
    assert(b[OFF_DISK_TYPE as int] == crate::trd::disk_type_byte(dt));
    lemma_reopen(b, dt);
    assert(b[slot(0)] == 0);
    lemma_cat_end_from(b, 0);
}

/// Adding a file to a well laid out image that reads back as itself gives an
/// image that reads back as itself too.
pub proof fn lemma_add_reopens(s: Seq<u8>, f: TrFileView, dt: DiskType)
    requires
        laid_out(s),
        f.name.len() == 8,
        trd_add(s, f) is Ok,
        trd_open(s) == Ok::<(DiskType, Seq<u8>), crate::error::Error>((dt, s)),
    ensures
        trd_open(trd_add_bytes(s, f)) == Ok::<(DiskType, Seq<u8>), crate::error::Error>(
            (dt, trd_add_bytes(s, f)),
        ),
{
    let t = trd_add_bytes(s, f);
    lemma_add_high(s, f, 4096);
    lemma_stage2_low(s, f, OFF_TRDOS_ID as int);
    lemma_stage2_low(s, f, OFF_DISK_TYPE as int);
    assert(s.len() >= size_of_disk(dt));
    lemma_reopen(t, dt);
}

/// Sectors taken by a list of catalog entries, deleted ones included.
pub open spec fn sectors_taken(es: Seq<TrFileView>) -> int
    decreases es.len(),
{
    if es.len() == 0 {
        0
    } else {
        sectors_taken(es.drop_last()) + es.last().sectors
    }
}

proof fn lemma_sectors_taken_push(es: Seq<TrFileView>, e: TrFileView)
    ensures
        sectors_taken(es.push(e)) == sectors_taken(es) + e.sectors,
{
    assert(es.push(e).drop_last() =~= es);
}

/// Lists of entries with the same sector counts take the same sectors.
proof fn lemma_sectors_taken_same(a: Seq<TrFileView>, b: Seq<TrFileView>)
    requires
        a.len() == b.len(),
        forall|i: int| 0 <= i < a.len() ==> #[trigger] a[i].sectors == b[i].sectors,
    ensures
        sectors_taken(a) == sectors_taken(b),
    decreases a.len(),
{
    if a.len() > 0 {
        lemma_sectors_taken_same(a.drop_last(), b.drop_last());
        assert(a.last().sectors == b[b.len() - 1].sectors);
    }
}

/// The state a disk of type `dt` is kept in by TR-DOS: nominal size, TR-DOS id
/// and type byte in place, as many catalog entries as the file count says (at
/// most 128), every file on a data track and before the free pointer (itself
/// on a data track), the free pointer plus the free-sector count making up the
/// whole disk, and the free-sector count plus the sectors of all catalog
/// entries (deleted ones included) making up every data sector.
pub open spec fn trd_sound(s: Seq<u8>, dt: DiskType) -> bool {
    let num = s[OFF_NUM_FILES as int] as int;
    &&& s.len() == size_of_disk(dt)
    &&& s[OFF_TRDOS_ID as int] == TRDOS_ID
    &&& disk_type_of(s[OFF_DISK_TYPE as int]) == Some(dt)
    &&& num <= 128
    &&& cat_len(s) == num
    &&& s[OFF_FIRST_FREE_TRACK as int] >= 1
    &&& forall|k: int|
        0 <= k < num ==> {
            &&& #[trigger] s[slot(k) + 15] >= 1
            &&& s[slot(k) + 15] * 16 + s[slot(k) + 14] + s[slot(k) + 13] <= free_lin(s)
        }
    &&& free_lin(s) + free_count(s) == tracks_of(dt) * 16
    &&& sectors_taken(trd_entries(s)) + free_count(s) == (tracks_of(dt) - 1) * 16
}

/// A freshly formatted disk is sound.
pub proof fn lemma_blank_sound(dt: DiskType, label: Seq<u8>)
    ensures
        trd_sound(trd_blank(dt, label), dt),
{
    let b = trd_blank(dt, label);
    lemma_blank_reopens(dt, label);
    assert(b[OFF_NUM_FILES as int] == 0);
    assert(b[OFF_FIRST_FREE_TRACK as int] == 1);
    assert(b[OFF_FIRST_FREE_SECTOR as int] == 0);
    assert(trd_entries(b) =~= Seq::<TrFileView>::empty());
}

/// Catalog bytes of an add below the new record stay, and the new record's
/// sector count, sector and track are the sectors the data needs and the old
/// free pointer.
proof fn lemma_add_slot_bytes(s: Seq<u8>, f: TrFileView, p: int)
    requires
        laid_out(s),
        f.name.len() == 8,
        trd_add(s, f) is Ok,
        0 <= p < slot(s[OFF_NUM_FILES as int] as int) + 16,
    ensures
        p < slot(s[OFF_NUM_FILES as int] as int) ==> trd_add_bytes(s, f)[p] == s[p],
        p == slot(s[OFF_NUM_FILES as int] as int) + 13 ==> trd_add_bytes(s, f)[p] == ceil_sectors(
            f.data.len() as int,
        ) as u8,
        p == slot(s[OFF_NUM_FILES as int] as int) + 14 ==> trd_add_bytes(s, f)[p] == s[OFF_FIRST_FREE_SECTOR as int],
        p == slot(s[OFF_NUM_FILES as int] as int) + 15 ==> trd_add_bytes(s, f)[p] == s[OFF_FIRST_FREE_TRACK as int],
{
    let num = s[OFF_NUM_FILES as int] as int;
    let need = ceil_sectors(f.data.len() as int);
    let rec = entry_record(f, need, s[OFF_FIRST_FREE_SECTOR as int], s[OFF_FIRST_FREE_TRACK as int]);
    assert(rec.len() == 16);
    lemma_add_high(s, f, 4096);
    if p < slot(num) {
        lemma_stage2_low(s, f, p);
    } else {
        assert(add_stage1(s, f)[p] == rec[p - slot(num)]);
        assert(free_lin(s) * 256 >= 4096);
        assert(add_stage2(s, f)[p] == add_stage1(s, f)[p]);
    }
}

/// Adding a file to a sound disk keeps it sound.
#[verifier::rlimit(60)]
pub proof fn lemma_add_keeps_sound(s: Seq<u8>, f: TrFileView, dt: DiskType)
    requires
        trd_sound(s, dt),
        f.name.len() == 8,
        trd_add(s, f) is Ok,
    ensures
        trd_sound(trd_add_bytes(s, f), dt),
{
    let num = s[OFF_NUM_FILES as int] as int;
    let need = ceil_sectors(f.data.len() as int);
    let lin = free_lin(s);
    let t = trd_add_bytes(s, f);
    assert(num < 128);
    assert(laid_out(s));
    lemma_add_accounting(s, f);
    lemma_add_entries(s, f);
    lemma_reopen(s, dt);
    lemma_add_reopens(s, f, dt);
    lemma_add_high(s, f, 4096);
    assert(need <= 255);
    assert(t.len() == s.len());
    assert(free_lin(t) == lin + need);
    lemma_cat_end_from(t, 0);
    assert(trd_entries(t).len() == num + 1);
    assert(cat_len(t) == num + 1);
    assert forall|k: int| 0 <= k < num + 1 implies {
        &&& #[trigger] t[slot(k) + 15] >= 1
        &&& t[slot(k) + 15] * 16 + t[slot(k) + 14] + t[slot(k) + 13] <= free_lin(t)
    } by {
        lemma_add_slot_bytes(s, f, slot(k) + 13);
        lemma_add_slot_bytes(s, f, slot(k) + 14);
        lemma_add_slot_bytes(s, f, slot(k) + 15);
        if k < num {
            assert(s[slot(k) + 15] >= 1);
        }
    }
    lemma_sectors_taken_push(trd_entries(s), added_entry(f));
}

/// Erasing a file of a sound disk keeps it sound.
pub proof fn lemma_erase_keeps_sound(s: Seq<u8>, target: Seq<char>, mode: ExtMode, dt: DiskType)
    requires
        trd_sound(s, dt),
        first_named(s, target, mode) >= 0,
    ensures
        trd_sound(trd_erase_bytes(s, first_named(s, target, mode)), dt),
{
    let m = first_named(s, target, mode);
    let t = trd_erase_bytes(s, m);
    let num = s[OFF_NUM_FILES as int] as int;
    lemma_first_named_from(s, 0, target, mode);
    assert(data_on_tracks(s)) by {
        assert forall|k: int| 0 <= k < cat_len(s) implies #[trigger] s[slot(k) + 15] >= 1 by {}
    }
    lemma_erase_entries(s, target, mode);
    assert(0 <= m < 128);
    assert forall|p: int| 0 <= p < s.len() && p != slot(m) && p != OFF_DELETED_COUNT implies #[trigger] t[p]
        == s[p] by {}
    lemma_cat_end_from(t, 0);
    assert(trd_entries(t).len() == cat_len(t));
    assert forall|k: int| 0 <= k < num implies {
        &&& #[trigger] t[slot(k) + 15] >= 1
        &&& t[slot(k) + 15] * 16 + t[slot(k) + 14] + t[slot(k) + 13] <= free_lin(t)
    } by {
        assert(s[slot(k) + 15] >= 1);
    }
    lemma_sectors_taken_same(trd_entries(s), trd_entries(t));
}

/// Renaming a file of a sound disk keeps it sound.
#[verifier::rlimit(60)]
pub proof fn lemma_rename_keeps_sound(
    s: Seq<u8>,
    target: Seq<char>,
    mode: ExtMode,
    new_bs: Seq<u8>,
    dt: DiskType,
)
    requires
        trd_sound(s, dt),
        first_named(s, target, mode) >= 0,
    ensures
        trd_sound(trd_rename_bytes(s, first_named(s, target, mode), new_bs), dt),
{
    let m = first_named(s, target, mode);
    let t = trd_rename_bytes(s, m, new_bs);
    let num = s[OFF_NUM_FILES as int] as int;
    lemma_first_named_from(s, 0, target, mode);
    assert(data_on_tracks(s)) by {
        assert forall|k: int| 0 <= k < cat_len(s) implies #[trigger] s[slot(k) + 15] >= 1 by {}
    }
    lemma_rename_entries(s, target, mode, new_bs);
    assert(0 <= m < 128);
    let o = slot(m);
    let (nn, nt, ns) = split_name_type_spec(new_bs);
    let nm = fix_first(nn);
    assert(nm.len() == 8);
    let s1 = splice(s, o, nm).update(o + 8, nt);
    assert forall|p: int| 0 <= p < s.len() && !(o <= p < o + 11) implies #[trigger] t[p] == s[p] by {
        assert(s1[p] == s[p]);
    }
    assert(t.len() == s.len());
    lemma_cat_end_from(t, 0);
    assert(trd_entries(t).len() == cat_len(t));
    assert forall|k: int| 0 <= k < num implies {
        &&& #[trigger] t[slot(k) + 15] >= 1
        &&& t[slot(k) + 15] * 16 + t[slot(k) + 14] + t[slot(k) + 13] <= free_lin(t)
    } by {
        assert(s[slot(k) + 15] >= 1);
    }
    lemma_sectors_taken_same(trd_entries(s), trd_entries(t));
}

/// What a sound disk promises: its free-sector count and the sectors taken by
/// all its catalog entries (deleted ones included) add up to its data sectors,
/// its catalog holds as many entries as its file count says, it has the
/// nominal size of its type, and it reads back as itself.
pub proof fn lemma_sound_accounts(s: Seq<u8>, dt: DiskType)
    requires
        trd_sound(s, dt),
    ensures
        free_count(s) + sectors_taken(trd_entries(s)) == (tracks_of(dt) - 1) * 16,
        trd_entries(s).len() == s[OFF_NUM_FILES as int],
        s.len() == size_of_disk(dt),
        trd_open(s) == Ok::<(DiskType, Seq<u8>), crate::error::Error>((dt, s)),
{
    lemma_reopen(s, dt);
}

/// Erasing a file of an image that reads back as itself gives an image that
/// reads back as itself too.
pub proof fn lemma_erase_reopens(s: Seq<u8>, target: Seq<char>, mode: ExtMode, dt: DiskType)
    requires
        first_named(s, target, mode) >= 0,
        trd_open(s) == Ok::<(DiskType, Seq<u8>), crate::error::Error>((dt, s)),
    ensures
        trd_open(trd_erase_bytes(s, first_named(s, target, mode))) == Ok::<
            (DiskType, Seq<u8>),
            crate::error::Error,
        >((dt, trd_erase_bytes(s, first_named(s, target, mode)))),
{
    let m = first_named(s, target, mode);
    lemma_first_named_from(s, 0, target, mode);
    let t = trd_erase_bytes(s, m);
    assert(s.len() >= size_of_disk(dt));
    assert(t[OFF_TRDOS_ID as int] == s[OFF_TRDOS_ID as int]);
    assert(t[OFF_DISK_TYPE as int] == s[OFF_DISK_TYPE as int]);
    lemma_reopen(t, dt);
}

/// Renaming a file of an image that reads back as itself gives an image that
/// reads back as itself too.
pub proof fn lemma_rename_reopens(s: Seq<u8>, target: Seq<char>, mode: ExtMode, new_bs: Seq<u8>, dt: DiskType)
    requires
        first_named(s, target, mode) >= 0,
        trd_open(s) == Ok::<(DiskType, Seq<u8>), crate::error::Error>((dt, s)),
    ensures
        trd_open(trd_rename_bytes(s, first_named(s, target, mode), new_bs)) == Ok::<
            (DiskType, Seq<u8>),
            crate::error::Error,
        >((dt, trd_rename_bytes(s, first_named(s, target, mode), new_bs))),
{
    let m = first_named(s, target, mode);
    lemma_first_named_from(s, 0, target, mode);
    let t = trd_rename_bytes(s, m, new_bs);
    let o = slot(m);
    let (nn, nt, ns) = split_name_type_spec(new_bs);
    let nm = fix_first(nn);
    assert(nm.len() == 8);
    let s1 = splice(s, o, nm).update(o + 8, nt);
    assert(s1[OFF_TRDOS_ID as int] == s[OFF_TRDOS_ID as int]);
    assert(s1[OFF_DISK_TYPE as int] == s[OFF_DISK_TYPE as int]);
    assert(t[OFF_TRDOS_ID as int] == s[OFF_TRDOS_ID as int]);
    assert(t[OFF_DISK_TYPE as int] == s[OFF_DISK_TYPE as int]);
    assert(s.len() >= size_of_disk(dt));
    lemma_reopen(t, dt);
}

/// An image that reads back as itself as a disk of type `dt`, whose free
/// pointer is on a data track and whose free space does not run past the end
/// of the disk: what an image read with a sane free pointer is, and what adds,
/// erases and renames keep, whatever else its catalog holds.
pub open spec fn trd_opened(s: Seq<u8>, dt: DiskType) -> bool {
    &&& trd_open(s) == Ok::<(DiskType, Seq<u8>), crate::error::Error>((dt, s))
    &&& s[OFF_FIRST_FREE_TRACK as int] >= 1
    &&& free_lin(s) + free_count(s) <= tracks_of(dt) * 16
}

/// The image read from `b` is opened, where its free pointer is on a data
/// track and its free space does not run past the end of the disk.
pub proof fn lemma_read_is_opened(b: Seq<u8>, dt: DiskType, s: Seq<u8>)
    requires
        trd_open(b) == Ok::<(DiskType, Seq<u8>), crate::error::Error>((dt, s)),
        s[OFF_FIRST_FREE_TRACK as int] >= 1,
        free_lin(s) + free_count(s) <= tracks_of(dt) * 16,
    ensures
        trd_opened(s, dt),
{
    assert(s[OFF_TRDOS_ID as int] == b[OFF_TRDOS_ID as int]);
    assert(s[OFF_DISK_TYPE as int] == b[OFF_DISK_TYPE as int]);
    lemma_reopen(s, dt);
}

/// A sound disk is opened.
pub proof fn lemma_sound_is_opened(s: Seq<u8>, dt: DiskType)
    requires
        trd_sound(s, dt),
    ensures
        trd_opened(s, dt),
{
    lemma_reopen(s, dt);
}

/// Adding a file to an opened image keeps it opened.
#[verifier::rlimit(60)]
pub proof fn lemma_add_keeps_opened(s: Seq<u8>, f: TrFileView, dt: DiskType)
    requires
        trd_opened(s, dt),
        f.name.len() == 8,
        trd_add(s, f) is Ok,
    ensures
        trd_opened(trd_add_bytes(s, f), dt),
{
    let t = trd_add_bytes(s, f);
    let need = ceil_sectors(f.data.len() as int);
    let lin = free_lin(s);
    assert(s.len() >= size_of_disk(dt));
    lemma_add_high(s, f, 4096);
    lemma_stage2_low(s, f, OFF_TRDOS_ID as int);
    lemma_stage2_low(s, f, OFF_DISK_TYPE as int);
    lemma_stage2_low(s, f, OFF_FREE_SECTORS as int);
    lemma_stage2_low(s, f, OFF_FREE_SECTORS + 1);
    let s2 = add_stage2(s, f);
    assert(free_count(s2) == free_count(s));
    let free = (free_count(s2) - need) % 0x10000;
    assert(free == free_count(s) - need);
    assert(u16_at(t, OFF_FREE_SECTORS as int) == free);
    assert(lin + need <= tracks_of(dt) * 16);
    assert(free_lin(t) == lin + need);
    assert(t[OFF_TRDOS_ID as int] == s[OFF_TRDOS_ID as int]);
    assert(t[OFF_DISK_TYPE as int] == s[OFF_DISK_TYPE as int]);
    lemma_reopen(t, dt);
}

/// Erasing a file of an opened image keeps it opened.
pub proof fn lemma_erase_keeps_opened(s: Seq<u8>, target: Seq<char>, mode: ExtMode, dt: DiskType)
    requires
        trd_opened(s, dt),
        first_named(s, target, mode) >= 0,
    ensures
        trd_opened(trd_erase_bytes(s, first_named(s, target, mode)), dt),
{
    let m = first_named(s, target, mode);
    lemma_first_named_from(s, 0, target, mode);
    lemma_erase_reopens(s, target, mode, dt);
    let t = trd_erase_bytes(s, m);
    assert(t[OFF_FIRST_FREE_TRACK as int] == s[OFF_FIRST_FREE_TRACK as int]);
    assert(t[OFF_FIRST_FREE_SECTOR as int] == s[OFF_FIRST_FREE_SECTOR as int]);
    assert(t[OFF_FREE_SECTORS as int] == s[OFF_FREE_SECTORS as int]);
    assert(t[OFF_FREE_SECTORS + 1] == s[OFF_FREE_SECTORS + 1]);
}

/// Renaming a file of an opened image keeps it opened.
pub proof fn lemma_rename_keeps_opened(
    s: Seq<u8>,
    target: Seq<char>,
    mode: ExtMode,
    new_bs: Seq<u8>,
    dt: DiskType,
)
    requires
        trd_opened(s, dt),
        first_named(s, target, mode) >= 0,
    ensures
        trd_opened(trd_rename_bytes(s, first_named(s, target, mode), new_bs), dt),
{
    let m = first_named(s, target, mode);
    lemma_first_named_from(s, 0, target, mode);
    lemma_rename_reopens(s, target, mode, new_bs, dt);
    let t = trd_rename_bytes(s, m, new_bs);
    let o = slot(m);
    let (nn, nt, ns) = split_name_type_spec(new_bs);
    let nm = fix_first(nn);
    assert(nm.len() == 8);
    let s1 = splice(s, o, nm).update(o + 8, nt);
    assert forall|p: int| 0 <= p < s.len() && !(o <= p < o + 11) implies #[trigger] t[p] == s[p] by {
        assert(s1[p] == s[p]);
    }
    assert(t[OFF_FIRST_FREE_TRACK as int] == s[OFF_FIRST_FREE_TRACK as int]);
    assert(t[OFF_FIRST_FREE_SECTOR as int] == s[OFF_FIRST_FREE_SECTOR as int]);
    assert(t[OFF_FREE_SECTORS as int] == s[OFF_FREE_SECTORS as int]);
    assert(t[OFF_FREE_SECTORS + 1] == s[OFF_FREE_SECTORS + 1]);
}

/// A name that slot `k` (live, within the catalog) answers to is found, at
/// slot `k` or an earlier one, by a search starting at or before `k`.
proof fn lemma_found_by_or_before(s: Seq<u8>, j: int, k: int, target: Seq<char>, mode: ExtMode)
    requires
        0 <= j <= k < cat_len(s),
        k < 128,
        live_named(s, k, target, mode),
    ensures
        j <= first_named_from(s, j, target, mode) <= k,
    decreases k - j,
{
    if !live_named(s, j, target, mode) {
        lemma_found_by_or_before(s, j + 1, k, target, mode);
    }
}

/// A live catalog entry is found by its hobeta name `NAME.$T` and by its
/// display name: a search for either finds it or an earlier entry of that
/// name, so erasing or renaming by the name a listing shows always works.
pub proof fn lemma_live_entry_is_found(s: Seq<u8>, k: int, mode: ExtMode)
    requires
        s.len() >= MIN_IMAGE_LEN,
        0 <= k < cat_len(s),
        s[slot(k)] != 1,
    ensures
        0 <= first_named(s, hobeta_name_of(entry_at(s, k)), mode) <= k,
        0 <= first_named(s, display_name_of(entry_at(s, k), mode), mode) <= k,
{
    lemma_cat_end_from(s, 0);
    let e = entry_at(s, k);
    let p = slot_probe(s, k);
    assert(!e.deleted);
    assert(p.name == e.name && p.file_type == e.file_type && p.start == e.start);
    assert(hobeta_name_of(p) == hobeta_name_of(e));
    assert(display_name_of(p, mode) == display_name_of(e, mode));
    lemma_file_answers_to_its_names(p, mode);
    lemma_found_by_or_before(s, 0, k, hobeta_name_of(e), mode);
    lemma_found_by_or_before(s, 0, k, display_name_of(e, mode), mode);
}

} // verus!
