//! Concrete cases of the library's laws and edge cases: zoom blocks, the
//! dominant colour among equals, FLASH phases, archive names, deletions in
//! the virtual folder, packing, settings text, error texts and codes.
use zxdisk::error::Error;
use zxdisk::plugin::{
    build_names, delete_listed, encode_entry, extracted_len, file_attr, map_core_err, pack_file,
    pack_one, pack_target, packs_into_root, Listing, Processed, TargetRead, E_BAD_ARCHIVE,
    E_EOPEN, E_EREAD, E_EWRITE, E_NOT_SUPPORTED, E_NO_FILES, E_SUCCESS, E_TOO_MANY_FILES,
    E_UNKNOWN_FORMAT,
};
use zxdisk::screen::{RenderOpts, Screen, BITMAP_LEN, PAL_PULSAR, SCREEN_LEN};
use zxdisk::settings::{parse_unsigned, setting_in, with_setting};
use zxdisk::text::dec_string;
use zxdisk::viewer::rgba_to_bgra;
use zxdisk::{DiskType, ExtMode, Image, TrFile, TrdImage};

fn name8(s: &str) -> [u8; 8] {
    let mut n = [b' '; 8];
    for (i, b) in s.bytes().take(8).enumerate() {
        n[i] = b;
    }
    n
}

fn opts(scale: u32, border: u32) -> RenderOpts {
    RenderOpts { scale, border, ..RenderOpts::default() }
}

#[test]
fn every_screen_pixel_becomes_a_zoom_block() {
    let mut b = vec![0u8; SCREEN_LEN];
    b[0] = 0x80; // pixel (0,0) on
    b[BITMAP_LEN] = 7; // white ink on black paper
    let s = Screen::parse(&b).unwrap();
    let img = s.render(false, &opts(3, 0));
    let w = img.width as usize;
    for y in 0..3 {
        for x in 0..3 {
            let o = (y * w + x) * 4;
            assert_eq!(&img.pixels[o..o + 4], &[205, 205, 205, 255], "({x},{y})");
        }
    }
    let o = (3 * w + 3) * 4;
    assert_eq!(&img.pixels[o..o + 4], &[0, 0, 0, 255]);
}

#[test]
fn the_dominant_colour_among_equals_is_the_last() {
    // Top half ink (blue), bottom half paper (red): equally frequent.
    let mut b = vec![0u8; SCREEN_LEN];
    for i in 0..BITMAP_LEN / 2 {
        b[i] = 0xFF;
    }
    for c in b[BITMAP_LEN..SCREEN_LEN].iter_mut() {
        *c = (2 << 3) | 1;
    }
    let s = Screen::parse(&b).unwrap();
    let img = s.render(false, &RenderOpts { border_dominant: true, ..opts(1, 1) });
    assert_eq!(img.border, PAL_PULSAR[2]);
}

#[test]
fn a_screen_without_flash_looks_the_same_in_both_phases() {
    let mut b = vec![0u8; SCREEN_LEN];
    for (i, x) in b.iter_mut().enumerate() {
        *x = (i % 127) as u8; // attribute bytes below 0x80: no FLASH
    }
    let s = Screen::parse(&b).unwrap();
    assert!(!s.has_flash());
    let a = s.render(false, &opts(1, 2));
    let c = s.render(true, &opts(1, 2));
    assert_eq!(a.pixels, c.pixels);
}

#[test]
fn the_flash_phase_is_an_inversion() {
    let mut b = vec![0u8; SCREEN_LEN];
    b[0] = 0xA5;
    b[BITMAP_LEN] = 0x80 | (3 << 3) | 5;
    let s = Screen::parse(&b).unwrap();
    let on = s.render(true, &opts(1, 0));
    let inverted = s.render(false, &RenderOpts { invert: true, ..opts(1, 0) });
    assert_eq!(&on.pixels[..8 * 4], &inverted.pixels[..8 * 4]);
}

#[test]
fn bgra_swaps_red_and_blue_of_whole_pixels() {
    assert_eq!(rgba_to_bgra(&[1, 2, 3, 4, 5, 6, 7, 8, 9]), vec![3, 2, 1, 4, 7, 6, 5, 8, 0]);
    assert_eq!(rgba_to_bgra(&[]), Vec::<u8>::new());
}

#[test]
fn archive_names_are_made_unique() {
    let a = TrFile::new(name8("GAME"), b'C', 0, vec![1; 10]);
    let names = build_names(&vec![a.clone(), a.clone(), a.clone()], false);
    assert_eq!(names, vec!["GAME.C", "GAME_2.C", "GAME_3.C"]);
    let mut d = a.clone();
    d.deleted = true;
    d.name[0] = 1;
    let names = build_names(&vec![a, d], false);
    assert_eq!(names[1], "deleted\\_AME.C");
}

#[test]
fn recovered_entries_are_read_only() {
    let mut trd = TrdImage::blank(DiskType::Ds80, "X");
    trd.add_file(&TrFile::new(name8("GAME"), b'C', 0, vec![1; 10])).unwrap();
    let mut img = Image::Trd(trd);
    let before = img.to_bytes();
    let only_deleted = vec!["deleted\\_AME.C".to_string(), "deleted/OTHER.B".to_string()];
    assert_eq!(delete_listed(&mut img, &only_deleted, ExtMode::Smart), E_NOT_SUPPORTED);
    assert_eq!(img.to_bytes(), before);
    let mixed = vec!["deleted\\_AME.C".to_string(), "GAME.C".to_string()];
    assert_eq!(delete_listed(&mut img, &mixed, ExtMode::Smart), E_SUCCESS);
    assert!(img.entries()[0].deleted);
}

#[test]
fn packing_goes_to_the_root_only() {
    assert!(packs_into_root(""));
    assert!(packs_into_root("\\"));
    assert!(packs_into_root("/\\/"));
    assert!(!packs_into_root("deleted\\"));
}

#[test]
fn a_packed_hobeta_file_keeps_its_metadata() {
    let orig = TrFile::new(name8("SPRITE"), b'C', 0x7B00, vec![0x33u8; 400]);
    let hob = encode_entry(&orig, true);
    let f = pack_file("SPRITE.$C", hob);
    assert_eq!(f.display_name(), "SPRITE.C");
    assert_eq!(f.start, 0x7B00);
    assert_eq!(f.length, 400);
    let raw = pack_file("data.bin", vec![1; 5]);
    assert_eq!(raw.file_type, b'b');
}

#[test]
fn the_reported_size_is_the_extracted_size() {
    for n in [0usize, 1, 255, 256, 257, 65280, 65281, 65536, 70000] {
        let f = TrFile::new(name8("F"), b'C', 0, vec![7; n]);
        for hobeta in [false, true] {
            assert_eq!(extracted_len(&f, hobeta), encode_entry(&f, hobeta).len(), "{n} {hobeta}");
        }
    }
}

#[test]
fn the_reported_hobeta_size_stops_at_255_sectors() {
    let f = TrFile::new(name8("BIG"), b'C', 0, vec![7; 65536]);
    assert_eq!(extracted_len(&f, true), 65297);
    assert_eq!(encode_entry(&f, true).len(), 65297);
}

#[test]
fn a_walk_reports_each_entry_once() {
    let f = TrFile::new(name8("A"), b'C', 0, vec![1; 3]);
    let g = TrFile::new(name8("B"), b'B', 0, vec![2; 300]);
    let mut l = Listing::new(vec![f, g], false, ExtMode::Smart).unwrap();
    let h = l.next_header().unwrap();
    assert_eq!((h.name.as_str(), h.size, h.deleted), ("A.C", 3, false));
    assert!(matches!(l.process(false), Processed::Skipped));
    let h = l.next_header().unwrap();
    assert_eq!((h.name.as_str(), h.size), ("B.B", 300));
    match l.process(true) {
        Processed::Write(b) => assert_eq!(b, vec![2; 300]),
        _ => panic!("expected bytes"),
    }
    assert!(l.next_header().is_none());
    assert_eq!(file_attr(true), 0x21);
    assert_eq!(file_attr(false), 0x20);
}

#[test]
fn image_errors_map_to_plugin_codes() {
    assert_eq!(map_core_err(Error::TooManyFiles), E_TOO_MANY_FILES);
    assert_eq!(map_core_err(Error::DiskFull), E_EWRITE);
    assert_eq!(map_core_err(Error::FileTooBig), E_EWRITE);
    assert_eq!(map_core_err(Error::UnknownFormat), E_UNKNOWN_FORMAT);
    assert_eq!(map_core_err(Error::BadArchive("x".to_string())), E_BAD_ARCHIVE);
    assert_eq!(map_core_err(Error::NotFound), E_NO_FILES);
}

#[test]
fn error_texts() {
    assert_eq!(Error::UnknownFormat.message(), "not a recognisable TRD or SCL image");
    assert_eq!(Error::BadArchive("bad".to_string()).message(), "broken image: bad");
    assert_eq!(Error::TooManyFiles.message(), "catalog is full");
    assert_eq!(Error::DiskFull.message(), "not enough free space on disk");
    assert_eq!(Error::FileTooBig.message(), "file exceeds the 255-sector TR-DOS limit");
    assert_eq!(Error::NotFound.message(), "file not found in catalog");
}

#[test]
fn settings_lines_read_the_way_the_plugins_write_them() {
    let text = "; comment\r\n# another\r\n[zxdisk]\r\n  EXT_MODE = dot \r\nother=1\r\next_mode=second\r\nurl=a=b";
    assert_eq!(setting_in(text, "ext_mode").as_deref(), Some("dot"));
    assert_eq!(setting_in(text, "url").as_deref(), Some("a=b"));
    assert_eq!(setting_in(text, "zxdisk"), None);
    assert_eq!(setting_in(text, "missing"), None);
    assert_eq!(setting_in("", "x"), None);
}

#[test]
fn writing_a_setting_replaces_only_the_first_line_that_sets_it() {
    let text = "a=1\r\n#b=0\r\nB = 2\r\nb=3";
    let out = with_setting(text, "b", "9", "\r\n");
    assert_eq!(out, "a=1\r\n#b=0\r\nb=9\r\nb=3\r\n");
    assert_eq!(with_setting("x=1\n", "y", "2", "\n"), "x=1\ny=2\n");
}

#[test]
fn unsigned_numbers_parse_like_the_standard_parsers() {
    assert_eq!(parse_unsigned("+5", 255), Some(5));
    assert_eq!(parse_unsigned("007", 255), Some(7));
    assert_eq!(parse_unsigned("256", 255), None);
    assert_eq!(parse_unsigned("4294967295", u32::MAX), Some(u32::MAX));
    assert_eq!(parse_unsigned("4294967296", u32::MAX), None);
    assert_eq!(parse_unsigned(" 5", 255), None);
    assert_eq!(parse_unsigned("+", 255), None);
    assert_eq!(parse_unsigned("", 255), None);
    assert_eq!(parse_unsigned("-1", 255), None);
}

#[test]
fn decimal_text() {
    assert_eq!(dec_string(0), "0");
    assert_eq!(dec_string(7), "7");
    assert_eq!(dec_string(65535), "65535");
}

#[test]
fn packing_opens_creates_or_refuses_the_target() {
    assert_eq!(pack_target(TargetRead::Failed, "trd", DiskType::Ds80).err(), Some(E_EOPEN));
    assert_eq!(pack_target(TargetRead::Read(vec![1, 2, 3]), "trd", DiskType::Ds80).err(), Some(E_BAD_ARCHIVE));
    let fresh = pack_target(TargetRead::Missing, "trd", DiskType::Ds40).unwrap();
    assert_eq!(fresh.to_bytes().len(), DiskType::Ds40.size());
    let bytes = TrdImage::blank(DiskType::Ds80, "OLD").to_bytes();
    let opened = pack_target(TargetRead::Read(bytes.clone()), "trd", DiskType::Ds40).unwrap();
    assert_eq!(opened.to_bytes(), bytes);
}

#[test]
fn packing_stops_at_an_unreadable_or_refused_file() {
    let mut img = pack_target(TargetRead::Missing, "trd", DiskType::Ds80).unwrap();
    assert_eq!(pack_one(&mut img, "dir/data.bin", Some(vec![1; 10])), None);
    assert_eq!(img.entries().len(), 1);
    assert_eq!(img.entries()[0].display_name(), "data.bin");
    assert_eq!(pack_one(&mut img, "gone.bin", None), Some(E_EREAD));
    assert_eq!(pack_one(&mut img, "big.bin", Some(vec![0; 70000])), Some(E_EWRITE));
    assert_eq!(img.entries().len(), 1);
}
