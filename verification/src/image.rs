//! A format-agnostic wrapper over [`TrdImage`] and [`SclArchive`] so callers
//! can treat both the same way.
use vstd::prelude::*;
use vstd::string::StringSliceAdditionalSpecFns;
use crate::entry::{views, ExtMode, TrFile, TrFileView};
use crate::error::{Error, error_text};
use crate::scl::{
    scl_added, scl_bytes, scl_catalog_fits, scl_files, scl_first_named, scl_magic, scl_magic_ok,
    scl_renamed, SclArchive,
};
use crate::text::{chars_eq, lower, lowered};
use crate::trd::{
    disk_type_of, first_named, trd_add, trd_blank, trd_entries, trd_erase_bytes, trd_open,
    trd_rename_bytes, DiskType, TrdImage, TrdView, MIN_IMAGE_LEN, OFF_DISK_TYPE, OFF_TRDOS_ID,
    TRDOS_ID,
};

verus! {

/// The two image formats.
#[derive(Copy, Clone, Debug, PartialEq, Eq, Structural)]
pub enum Format {
    Trd,
    Scl,
}

/// A TRD disk image or an SCL archive.
pub enum Image {
    Trd(TrdImage),
    Scl(SclArchive),
}

/// The content of an [`Image`].
pub ghost enum ImageView {
    Trd(TrdView),
    Scl(Seq<TrFileView>),
}

impl View for Image {
    type V = ImageView;

    open spec fn view(&self) -> ImageView {
        match self {
            Image::Trd(t) => ImageView::Trd(t@),
            Image::Scl(s) => ImageView::Scl(s@),
        }
    }
}

/// The format the leading bytes announce: the SCL magic, or a TRD info sector
/// with the TR-DOS id and a known disk type.
pub open spec fn detect_format(b: Seq<u8>) -> Option<Format> {
    if b.len() >= 8 && b.take(8) == scl_magic() {
        Some(Format::Scl)
    } else if b.len() >= MIN_IMAGE_LEN && b[OFF_TRDOS_ID as int] == TRDOS_ID && disk_type_of(
        b[OFF_DISK_TYPE as int],
    ).is_some() {
        Some(Format::Trd)
    } else {
        None
    }
}

/// The format [`Image::from_bytes`] reads `b` as: the detected one, else the
/// one the extension hint names (ASCII case ignored).
pub open spec fn open_as(b: Seq<u8>, hint: Option<Seq<char>>) -> Option<Format> {
    match detect_format(b) {
        Some(f) => Some(f),
        None => match hint {
            Some(e) => if lower(e) == "scl"@ {
                Some(Format::Scl)
            } else if lower(e) == "trd"@ {
                Some(Format::Trd)
            } else {
                None
            },
            None => None,
        },
    }
}

/// The hint as characters.
pub open spec fn hint_view(hint: Option<&str>) -> Option<Seq<char>> {
    match hint {
        Some(e) => Some(e@),
        None => None,
    }
}

/// The catalog of an image: TRD entries live and deleted, or the SCL files.
pub open spec fn image_entries(v: ImageView) -> Seq<TrFileView> {
    match v {
        ImageView::Trd(t) => trd_entries(t.bytes),
        ImageView::Scl(s) => s,
    }
}

/// Whether `target` names a file of the image (by display name in `mode`, or
/// hobeta name): a live TRD entry, or an SCL file.
pub open spec fn image_names(v: ImageView, target: Seq<char>, mode: ExtMode) -> bool {
    match v {
        ImageView::Trd(t) => first_named(t.bytes, target, mode) >= 0,
        ImageView::Scl(fs) => scl_first_named(fs, target, mode) >= 0,
    }
}

/// The image once the file `target` names is deleted: a TRD entry is marked
/// deleted (recoverable), an SCL file removed; unchanged when nothing matches.
pub open spec fn image_deleted(v: ImageView, target: Seq<char>, mode: ExtMode) -> ImageView {
    match v {
        ImageView::Trd(t) => {
            let m = first_named(t.bytes, target, mode);
            if m >= 0 {
                ImageView::Trd(TrdView { disk_type: t.disk_type, bytes: trd_erase_bytes(t.bytes, m) })
            } else {
                v
            }
        },
        ImageView::Scl(fs) => {
            let m = scl_first_named(fs, target, mode);
            if m >= 0 {
                ImageView::Scl(fs.remove(m))
            } else {
                v
            }
        },
    }
}

/// The image once the file `target` names is renamed to `new_basename` (host
/// file name bytes); unchanged when nothing matches.
pub open spec fn image_renamed(v: ImageView, target: Seq<char>, new_basename: Seq<u8>, mode: ExtMode) -> ImageView {
    match v {
        ImageView::Trd(t) => {
            let m = first_named(t.bytes, target, mode);
            if m >= 0 {
                ImageView::Trd(TrdView { disk_type: t.disk_type, bytes: trd_rename_bytes(t.bytes, m, new_basename) })
            } else {
                v
            }
        },
        ImageView::Scl(fs) => {
            let m = scl_first_named(fs, target, mode);
            if m >= 0 {
                ImageView::Scl(fs.update(m, scl_renamed(fs[m], new_basename)))
            } else {
                v
            }
        },
    }
}

/// The image once file `f` is added, or the error refusing it.
pub open spec fn image_added(v: ImageView, f: TrFileView) -> Result<ImageView, Error> {
    match v {
        ImageView::Trd(t) => match trd_add(t.bytes, f) {
            Ok(s) => Ok(ImageView::Trd(TrdView { disk_type: t.disk_type, bytes: s })),
            Err(e) => Err(e),
        },
        ImageView::Scl(fs) => if fs.len() >= 255 {
            Err(Error::TooManyFiles)
        } else if f.data.len() > 255 * 256 {
            Err(Error::FileTooBig)
        } else {
            Ok(ImageView::Scl(fs.push(scl_added(f))))
        },
    }
}

/// What opening `b` (with the extension hint `hint`) gives: the image's
/// content, or the text of the error refusing it.
pub open spec fn open_result(b: Seq<u8>, hint: Option<Seq<char>>) -> Result<ImageView, Seq<char>> {
    match open_as(b, hint) {
        None => Err(error_text(Error::UnknownFormat)),
        Some(Format::Trd) => match trd_open(b) {
            Ok((dt, s)) => Ok(ImageView::Trd(TrdView { disk_type: dt, bytes: s })),
            Err(e) => Err(error_text(e)),
        },
        Some(Format::Scl) => if !scl_magic_ok(b) {
            Err(error_text(Error::UnknownFormat))
        } else if !scl_catalog_fits(b) {
            Err("broken image: "@ + "catalog truncated"@)
        } else {
            Ok(ImageView::Scl(scl_files(b)))
        },
    }
}

impl Image {
    /// A TRD image holds at least its catalog and info sector.
    pub open spec fn wf(&self) -> bool {
        match self {
            Image::Trd(t) => t.wf(),
            Image::Scl(_) => true,
        }
    }

    /// Detect the format from the leading bytes alone (content sniffing).
    pub fn detect(bytes: &[u8]) -> (r: Option<Format>)
        ensures
            r == detect_format(bytes@),
    {
        let len = bytes.len();
        if len >= 8 {
            let magic: [u8; 8] = [83, 73, 78, 67, 76, 65, 73, 82];
            let mut same = true;
            let mut i: usize = 0;
            while i < 8
                invariant
                    i <= 8,
                    len == bytes@.len(),
                    len >= 8,
                    magic@ == scl_magic(),
                    same == (forall|j: int| 0 <= j < i ==> bytes@[j] == scl_magic()[j]),
                decreases 8 - i,
            {
                same = same && bytes[i] == magic[i];
                i = i + 1;
            }
            if same {
                assert(bytes@.take(8) =~= scl_magic());
                return Some(Format::Scl);
            } else {
                assert(bytes@.take(8) != scl_magic()) by {
                    let j = choose|j: int| 0 <= j < 8 && bytes@[j] != scl_magic()[j];
                    assert(bytes@.take(8)[j] != scl_magic()[j]);
                }
            }
        }
        if len >= MIN_IMAGE_LEN && bytes[OFF_TRDOS_ID] == TRDOS_ID && DiskType::from_byte(
            bytes[OFF_DISK_TYPE],
        ).is_some() {
            return Some(Format::Trd);
        }
        None
    }

    /// Parse an image, preferring content detection and falling back to the file
    /// extension when the content is ambiguous.
    pub fn from_bytes(bytes: &[u8], ext_hint: Option<&str>) -> (r: Result<Image, Error>)
        ensures
            match open_result(bytes@, hint_view(ext_hint)) {
                Ok(v) => r matches Ok(img) && img@ == v && img.wf(),
                Err(t) => r matches Err(e) && error_text(e) == t,
            },
            open_as(bytes@, hint_view(ext_hint)) is None ==> r == Err::<Image, Error>(
                Error::UnknownFormat,
            ),
            open_as(bytes@, hint_view(ext_hint)) == Some(Format::Trd) ==> match trd_open(bytes@) {
                Ok((dt, s)) => r matches Ok(Image::Trd(t)) && t@ == (TrdView {
                    disk_type: dt,
                    bytes: s,
                }) && t.wf(),
                Err(e) => r == Err::<Image, Error>(e),
            },
            open_as(bytes@, hint_view(ext_hint)) == Some(Format::Scl) ==> {
                &&& !scl_magic_ok(bytes@) ==> r == Err::<Image, Error>(Error::UnknownFormat)
                &&& scl_magic_ok(bytes@) && !scl_catalog_fits(bytes@) ==> (r matches Err(
                    Error::BadArchive(m),
                ) && m@ == "catalog truncated"@)
                &&& scl_magic_ok(bytes@) && scl_catalog_fits(bytes@) ==> (r matches Ok(
                    Image::Scl(a),
                ) && a@ == scl_files(bytes@))
            },
    {
        let fmt = match Image::detect(bytes) {
            Some(f) => Some(f),
            None => match ext_hint {
                Some(e) => {
                    let l = lowered(e);
                    if chars_eq(&l, "scl") {
                        Some(Format::Scl)
                    } else if chars_eq(&l, "trd") {
                        Some(Format::Trd)
                    } else {
                        None
                    }
                },
                None => None,
            },
        };
        match fmt {
            Some(Format::Scl) => match SclArchive::from_bytes(bytes) {
                Ok(a) => Ok(Image::Scl(a)),
                Err(e) => Err(e),
            },
            Some(Format::Trd) => match TrdImage::from_bytes(bytes) {
                Ok(t) => Ok(Image::Trd(t)),
                Err(e) => Err(e),
            },
            None => Err(Error::UnknownFormat),
        }
    }

    /// A blank image appropriate for a target extension (used when packing into a
    /// path that does not exist yet). Any extension but `scl` gives a 640 KB TRD.
    pub fn blank_for_ext(ext: &str) -> (r: Image)
        ensures
            r.wf(),
            lower(ext@) == "scl"@ ==> r@ == ImageView::Scl(Seq::empty()),
            lower(ext@) != "scl"@ ==> r@ == ImageView::Trd(
                TrdView { disk_type: DiskType::Ds80, bytes: trd_blank(DiskType::Ds80, Seq::empty()) },
            ),
    {
        Image::blank_for_ext_with(ext, DiskType::Ds80)
    }

    /// Like [`Image::blank_for_ext`] but with a chosen TRD geometry (ignored for
    /// SCL, which has no geometry). The TRD label is blank.
    pub fn blank_for_ext_with(ext: &str, trd_geometry: DiskType) -> (r: Image)
        ensures
            r.wf(),
            lower(ext@) == "scl"@ ==> r@ == ImageView::Scl(Seq::empty()),
            lower(ext@) != "scl"@ ==> r@ == ImageView::Trd(
                TrdView { disk_type: trd_geometry, bytes: trd_blank(trd_geometry, Seq::empty()) },
            ),
    {
        let l = lowered(ext);
        if chars_eq(&l, "scl") {
            Image::Scl(SclArchive::blank())
        } else {
            let t = TrdImage::blank(trd_geometry, "");
            proof {
                reveal_strlit("");
                assert(""@.len() == 0);
                vstd::string::is_ascii_spec_bytes("");
                assert(""@ =~= Seq::<char>::empty());
                assert(""@.len() == 0 ==> "".spec_bytes() =~= Seq::<u8>::empty()) by {
                    assert(vstd::utf8::encode_utf8(Seq::<char>::empty()) =~= Seq::<u8>::empty());
                }
            }
            Image::Trd(t)
        }
    }

    /// Which format this image is.
    pub fn format(&self) -> (r: Format)
        ensures
            r == (match self@ {
                ImageView::Trd(_) => Format::Trd,
                ImageView::Scl(_) => Format::Scl,
            }),
    {
        match self {
            Image::Trd(_) => Format::Trd,
            Image::Scl(_) => Format::Scl,
        }
    }

    /// The catalog, each entry with its data.
    pub fn entries(&self) -> (r: Vec<TrFile>)
        requires
            self.wf(),
        ensures
            views(r@) == image_entries(self@),
    {
        match self {
            Image::Trd(t) => t.entries(),
            Image::Scl(s) => s.entries(),
        }
    }

    /// Add a file (see [`TrdImage::add_file`] and [`SclArchive::add_file`]).
    pub fn add_file(&mut self, f: &TrFile) -> (r: Result<(), Error>)
        requires
            old(self).wf(),
        ensures
            final(self).wf(),
            match image_added(old(self)@, f@) {
                Ok(v) => r is Ok && final(self)@ == v,
                Err(e) => r == Err::<(), Error>(e) && final(self)@ == old(self)@,
            },
            match old(self)@ {
                ImageView::Trd(t) => match trd_add(t.bytes, f@) {
                    Ok(s) => r is Ok && final(self)@ == ImageView::Trd(
                        TrdView { disk_type: t.disk_type, bytes: s },
                    ),
                    Err(e) => r == Err::<(), Error>(e) && final(self)@ == old(self)@,
                },
                ImageView::Scl(fs) => {
                    &&& fs.len() >= 255 ==> r == Err::<(), Error>(Error::TooManyFiles)
                        && final(self)@ == old(self)@
                    &&& fs.len() < 255 && f@.data.len() > 255 * 256 ==> r == Err::<(), Error>(
                        Error::FileTooBig,
                    ) && final(self)@ == old(self)@
                    &&& fs.len() < 255 && f@.data.len() <= 255 * 256 ==> r is Ok && final(self)@
                        == ImageView::Scl(fs.push(scl_added(f@)))
                },
            },
    {
        match self {
            Image::Trd(t) => t.add_file(f),
            Image::Scl(s) => s.add_file(f),
        }
    }

    /// Delete by display name (in `mode`) or hobeta name. For TRD this marks the
    /// entry deleted (recoverable); for SCL it removes the entry outright. Returns
    /// whether a match was found.
    pub fn delete_file_with(&mut self, target: &str, mode: ExtMode) -> (found: bool)
        requires
            old(self).wf(),
        ensures
            final(self).wf(),
            found == image_names(old(self)@, target@, mode),
            final(self)@ == image_deleted(old(self)@, target@, mode),
            match old(self)@ {
                ImageView::Trd(t) => {
                    let m = first_named(t.bytes, target@, mode);
                    &&& found == (m >= 0)
                    &&& found ==> final(self)@ == ImageView::Trd(
                        TrdView { disk_type: t.disk_type, bytes: trd_erase_bytes(t.bytes, m) },
                    )
                    &&& !found ==> final(self)@ == old(self)@
                },
                ImageView::Scl(fs) => {
                    let m = scl_first_named(fs, target@, mode);
                    &&& found == (m >= 0)
                    &&& found ==> final(self)@ == ImageView::Scl(fs.remove(m))
                    &&& !found ==> final(self)@ == old(self)@
                },
            },
    {
        match self {
            Image::Trd(t) => t.mark_deleted_with(target, mode),
            Image::Scl(s) => s.remove_file_with(target, mode),
        }
    }

    /// [`Image::delete_file_with`] in the library's default mode, [`ExtMode::Smart`].
    pub fn delete_file(&mut self, target: &str) -> (found: bool)
        requires
            old(self).wf(),
        ensures
            final(self).wf(),
            match old(self)@ {
                ImageView::Trd(t) => {
                    let m = first_named(t.bytes, target@, ExtMode::Smart);
                    &&& found == (m >= 0)
                    &&& found ==> final(self)@ == ImageView::Trd(
                        TrdView { disk_type: t.disk_type, bytes: trd_erase_bytes(t.bytes, m) },
                    )
                    &&& !found ==> final(self)@ == old(self)@
                },
                ImageView::Scl(fs) => {
                    let m = scl_first_named(fs, target@, ExtMode::Smart);
                    &&& found == (m >= 0)
                    &&& found ==> final(self)@ == ImageView::Scl(fs.remove(m))
                    &&& !found ==> final(self)@ == old(self)@
                },
            },
    {
        self.delete_file_with(target, ExtMode::Smart)
    }

    /// Rename a file (by display name in `mode`, or hobeta name) to
    /// `new_basename`. Returns whether a match was found.
    pub fn rename_file_with(&mut self, target: &str, new_basename: &str, mode: ExtMode) -> (found:
        bool)
        requires
            old(self).wf(),
        ensures
            final(self).wf(),
            found == image_names(old(self)@, target@, mode),
            final(self)@ == image_renamed(old(self)@, target@, new_basename.spec_bytes(), mode),
            match old(self)@ {
                ImageView::Trd(t) => {
                    let m = first_named(t.bytes, target@, mode);
                    &&& found == (m >= 0)
                    &&& found ==> final(self)@ == ImageView::Trd(
                        TrdView {
                            disk_type: t.disk_type,
                            bytes: trd_rename_bytes(t.bytes, m, new_basename.spec_bytes()),
                        },
                    )
                    &&& !found ==> final(self)@ == old(self)@
                },
                ImageView::Scl(fs) => {
                    let m = scl_first_named(fs, target@, mode);
                    &&& found == (m >= 0)
                    &&& found ==> final(self)@ == ImageView::Scl(
                        fs.update(m, scl_renamed(fs[m], new_basename.spec_bytes())),
                    )
                    &&& !found ==> final(self)@ == old(self)@
                },
            },
    {
        match self {
            Image::Trd(t) => t.rename_with(target, new_basename, mode),
            Image::Scl(s) => s.rename_with(target, new_basename, mode),
        }
    }

    /// [`Image::rename_file_with`] in the library's default mode, [`ExtMode::Smart`].
    pub fn rename_file(&mut self, target: &str, new_basename: &str) -> (found: bool)
        requires
            old(self).wf(),
        ensures
            final(self).wf(),
            match old(self)@ {
                ImageView::Trd(t) => {
                    let m = first_named(t.bytes, target@, ExtMode::Smart);
                    &&& found == (m >= 0)
                    &&& found ==> final(self)@ == ImageView::Trd(
                        TrdView {
                            disk_type: t.disk_type,
                            bytes: trd_rename_bytes(t.bytes, m, new_basename.spec_bytes()),
                        },
                    )
                    &&& !found ==> final(self)@ == old(self)@
                },
                ImageView::Scl(fs) => {
                    let m = scl_first_named(fs, target@, ExtMode::Smart);
                    &&& found == (m >= 0)
                    &&& found ==> final(self)@ == ImageView::Scl(
                        fs.update(m, scl_renamed(fs[m], new_basename.spec_bytes())),
                    )
                    &&& !found ==> final(self)@ == old(self)@
                },
            },
    {
        self.rename_file_with(target, new_basename, ExtMode::Smart)
    }

    /// The image bytes.
    pub fn to_bytes(&self) -> (r: Vec<u8>)
        requires
            match self@ {
                ImageView::Scl(fs) => scl_bytes(fs).len() <= usize::MAX,
                ImageView::Trd(_) => true,
            },
        ensures
            r@ == match self@ {
                ImageView::Trd(t) => t.bytes,
                ImageView::Scl(fs) => scl_bytes(fs),
            },
    {
        match self {
            Image::Trd(t) => t.to_bytes(),
            Image::Scl(s) => s.to_bytes(),
        }
    }
}

} // verus!
