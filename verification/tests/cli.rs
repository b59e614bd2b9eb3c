//! The command line tool's decisions: commands, arguments, how a path splits
//! into an image and an entry, and what each command does and answers.
use zxdisk::cli::{
    add_args, add_to, command_of, delete_args, delete_in, extract_args, extract_from, ls_args,
    ls_report, open_image, rename_args, rename_in, split_image_in, target_from, unknown_command,
    Command, DeleteArgs, RenameArgs,
};
use zxdisk::paths::{basename, ext_of, has_image_ext, path_chain};
use zxdisk::{DiskType, ExtMode, Image, TrFile, TrdImage};

fn name8(s: &str) -> [u8; 8] {
    let mut n = [b' '; 8];
    for (i, b) in s.bytes().take(8).enumerate() {
        n[i] = b;
    }
    n
}

/// An image with two files in it.
fn image() -> Image {
    let mut trd = TrdImage::blank(DiskType::Ds80, "TESTDSK");
    trd.add_file(&TrFile::new(name8("HELLO"), b'C', 0x8000, vec![0xAA; 300])).unwrap();
    trd.add_file(&TrFile::new(name8("WORLD"), b'B', 10, vec![0x55; 256])).unwrap();
    Image::Trd(trd)
}

fn args(v: &[&str]) -> Vec<String> {
    v.iter().map(|s| s.to_string()).collect()
}

#[test]
fn commands_and_their_aliases() {
    assert_eq!(command_of("ls"), Some(Command::List));
    assert_eq!(command_of("list"), Some(Command::List));
    assert_eq!(command_of("ren"), Some(Command::Rename));
    assert_eq!(command_of("rm"), Some(Command::Delete));
    assert_eq!(command_of("get"), Some(Command::Extract));
    assert_eq!(command_of("put"), Some(Command::Add));
    assert_eq!(command_of(""), Some(Command::Help));
    assert_eq!(command_of("--help"), Some(Command::Help));
    assert_eq!(command_of("frobnicate"), None);
    assert_eq!(unknown_command("frobnicate"), "unknown command: frobnicate");
}

#[test]
fn ls_report_lists_the_entries() {
    let out = ls_report(&image(), ExtMode::Smart);
    assert!(out.starts_with("Trd (2 files)\n"), "{out}");
    assert!(out.contains("HELLO.C        32768      300"), "{out}");
    assert!(out.contains("WORLD.B           10      256"), "{out}");
    // No trailing blank line: the tool's output is piped into other things.
    assert!(!out.ends_with('\n'));
    assert!(!out.ends_with(' '));
}

#[test]
fn ls_report_marks_deleted_entries() {
    let mut img = image();
    assert!(img.delete_file("WORLD.B"));
    let out = ls_report(&img, ExtMode::Smart);
    assert!(out.ends_with("_ORLD.B           10      256 deleted"), "{out}");
}

#[test]
fn argument_shapes() {
    assert!(matches!(rename_args(&args(&["a.trd/X.C", "Y.C"])), Ok(RenameArgs::InPath { .. })));
    assert!(matches!(rename_args(&args(&["a.trd", "X.C", "Y.C"])), Ok(RenameArgs::Named { .. })));
    assert!(rename_args(&[]).err().unwrap().contains("expected"));
    assert!(rename_args(&args(&["one"])).err().unwrap().contains("expected"));
    assert!(matches!(delete_args(&args(&["a.trd/X.C"])), Ok(DeleteArgs::InPath { .. })));
    assert!(matches!(delete_args(&args(&["a.trd", "X.C"])), Ok(DeleteArgs::Named { .. })));
    assert!(delete_args(&[]).err().unwrap().contains("expected"));
    assert!(extract_args(&[]).unwrap_err().contains("expected"));
    assert_eq!(extract_args(&args(&["a.trd/X.C", "out"])).unwrap(), ("a.trd/X.C".to_string(), "out".to_string()));
    assert_eq!(add_args(&args(&["a.trd", "f.bin"])).unwrap().2, None);
    assert_eq!(add_args(&args(&["a.trd", "f.bin", "AS.C"])).unwrap().2, Some("AS.C".to_string()));
    assert!(add_args(&args(&["a.trd"])).unwrap_err().contains("expected"));
}

#[test]
fn targets_of_a_split_path() {
    let t = target_from(Some(("g.trd".to_string(), Some("HELLO.C".to_string()))), "rename", "path has no entry to rename");
    assert_eq!(t.unwrap(), ("g.trd".to_string(), "HELLO.C".to_string()));
    let e = target_from(Some(("g.trd".to_string(), None)), "rename", "path has no entry to rename").unwrap_err();
    assert_eq!(e, "rename: path has no entry to rename");
    let e = target_from(None, "delete", "path has no entry").unwrap_err();
    assert_eq!(e, "delete: no .trd/.scl in path");
}

#[test]
fn split_takes_the_nearest_image_file() {
    let path = "/d/outer.trd/inner.trd/A.C";
    let chain = path_chain(path);
    assert_eq!(chain[0], path);
    assert_eq!(chain[1], "/d/outer.trd/inner.trd");
    assert_eq!(chain[2], "/d/outer.trd");
    // outer.trd is a directory, inner.trd a file.
    let files: Vec<bool> = chain.iter().map(|c| c == "/d/outer.trd/inner.trd").collect();
    let (img, entry) = split_image_in(path, &chain, &files).unwrap();
    assert_eq!(img, "/d/outer.trd/inner.trd");
    assert_eq!(entry.as_deref(), Some("A.C"));
    // The image itself has no entry.
    let chain = path_chain("/d/GAME.TRD");
    let files = vec![true; chain.len()];
    assert_eq!(split_image_in("/d/GAME.TRD", &chain, &files), Some(("/d/GAME.TRD".to_string(), None)));
    // No image file anywhere.
    let chain = path_chain("/d/nothing/here.txt");
    let files = vec![false; chain.len()];
    assert_eq!(split_image_in("/d/nothing/here.txt", &chain, &files), None);
}

#[test]
fn path_pieces() {
    assert_eq!(basename("dir/GAME.C"), "GAME.C");
    assert_eq!(basename("GAME.C"), "GAME.C");
    assert_eq!(ext_of("/x/game.trd"), "trd");
    assert_eq!(ext_of("/x/noext"), "");
    assert!(has_image_ext("/x/GAME.TRD"));
    assert!(has_image_ext("a.Scl"));
    assert!(!has_image_ext("a.txt"));
}

#[test]
fn rename_answers_and_changes() {
    let mut img = image();
    let msg = rename_in(&mut img, "HELLO.C", "BYE.C", ExtMode::Smart, "game.trd").unwrap();
    assert_eq!(msg, "renamed 'HELLO.C' -> 'BYE.C'");
    let after = ls_report(&img, ExtMode::Smart);
    assert!(after.contains("BYE.C"), "{after}");
    assert!(!after.contains("HELLO.C"), "{after}");
    let e = rename_in(&mut img, "NOPE.C", "X.C", ExtMode::Smart, "game.trd").unwrap_err();
    assert_eq!(e, "rename: 'NOPE.C' not found in game.trd");
}

#[test]
fn delete_answers_and_changes() {
    let mut img = image();
    assert_eq!(delete_in(&mut img, "WORLD.B", ExtMode::Smart).unwrap(), "deleted 'WORLD.B'");
    let after = ls_report(&img, ExtMode::Smart);
    assert!(after.contains("HELLO.C"), "{after}");
    assert!(after.contains("deleted"), "{after}");
    assert_eq!(delete_in(&mut img, "NOPE.C", ExtMode::Smart).unwrap_err(), "delete: 'NOPE.C' not found");
}

#[test]
fn extract_gives_the_padded_data() {
    let img = image();
    let (data, msg) = extract_from(&img, "HELLO.C", "HELLO.bin", ExtMode::Smart).unwrap();
    // 300 bytes of data, padded to whole 256-byte sectors on the way in.
    assert_eq!(data.len(), 512);
    assert_eq!(&data[..300], &[0xAA; 300][..]);
    assert_eq!(msg, "extracted 'HELLO.C' -> HELLO.bin (512 bytes)");
    let e = extract_from(&img, "NOPE.C", "x", ExtMode::Smart).unwrap_err();
    assert_eq!(e, "extract: 'NOPE.C' not found");
}

#[test]
fn add_answers_and_refusals() {
    let mut img = image();
    let f = TrFile::from_host_filename("data.bin", vec![1; 100]);
    assert_eq!(add_to(&mut img, &f, ExtMode::Smart).unwrap(), "added 'data.bin'");
    assert!(ls_report(&img, ExtMode::Smart).contains("3 files"));
    let big = TrFile::new(name8("BIG"), b'C', 0, vec![0; 70000]);
    let e = add_to(&mut img, &big, ExtMode::Smart).unwrap_err();
    assert!(e.starts_with("add failed: "), "{e}");
}

#[test]
fn opening_refuses_what_is_not_an_image() {
    let e = open_image(b"this is not a disk image at all, nope", Some("dat"), "junk.dat").err().unwrap();
    assert_eq!(e, "junk.dat: not a recognisable TRD or SCL image");
    let bytes = image().to_bytes();
    assert!(open_image(&bytes, Some("trd"), "g.trd").is_ok());
}

#[test]
fn extension_follows_the_last_dot_of_the_file_name() {
    assert_eq!(ext_of("/x/archive.tar.gz"), "gz");
    assert_eq!(ext_of("/x/.hidden"), "");
    assert_eq!(ext_of("/x/.hidden.trd"), "trd");
    assert_eq!(ext_of("/x.d/readme"), "");
    assert_eq!(ext_of("/x/name."), "");
    assert!(!has_image_ext("/x/.trd"));
}

// The same cases as the tool's own, with the filesystem answered in memory:
// which of a path's ancestors are files, and the image bytes as they would
// be written back.

const IMG: &str = "/tmp/zxdisk-cli/game.trd";

/// How a path splits when only the paths in `files` are files on disk.
fn split(path: &str, files: &[&str]) -> Option<(String, Option<String>)> {
    let chain = path_chain(path);
    let is_file: Vec<bool> = chain.iter().map(|c| files.contains(&c.as_str())).collect();
    split_image_in(path, &chain, &is_file)
}

/// The image written back and read again.
fn written_back(img: &Image) -> Image {
    open_image(&img.to_bytes(), Some("trd"), IMG).unwrap()
}

#[test]
fn split_image_finds_the_image_and_the_entry() {
    let (found, entry) = split(IMG, &[IMG]).unwrap();
    assert_eq!(found, IMG);
    assert_eq!(entry, None);
    let inside = format!("{}/HELLO.C", IMG);
    let (found, entry) = split(&inside, &[IMG]).unwrap();
    assert_eq!(found, IMG);
    assert_eq!(entry.as_deref(), Some("HELLO.C"));
}

#[test]
fn split_image_matches_the_extension_whatever_its_case() {
    let upper = "/tmp/zxdisk-cli/GAME.TRD";
    assert!(split(upper, &[upper]).is_some());
    let inside = format!("{}/BOOT.B", upper);
    let (found, entry) = split(&inside, &[upper]).unwrap();
    assert_eq!(found, upper);
    assert_eq!(entry.as_deref(), Some("BOOT.B"));
}

#[test]
fn split_image_refuses_what_is_not_an_image() {
    assert!(split("/tmp/zxdisk-cli/nothing/here.txt", &[]).is_none());
    // The right extension on a file that does not exist is not enough.
    assert!(split("/tmp/zxdisk-cli/absent.trd", &[]).is_none());
    assert!(split("", &[]).is_none());
}

#[test]
fn split_image_takes_the_innermost_image() {
    // outer.trd is a directory, inner.trd a file below it.
    let inner = "/tmp/zxdisk-cli/outer.trd/inner.trd";
    let path = format!("{}/A.C", inner);
    let (found, entry) = split(&path, &[inner]).unwrap();
    assert_eq!(found, inner);
    assert_eq!(entry.as_deref(), Some("A.C"));
}

#[test]
fn ls_lists_what_is_in_the_image() {
    assert_eq!(ls_args(&args(&[IMG])).unwrap(), IMG);
    let out = ls_report(&image(), ExtMode::Smart);
    assert!(out.contains("2 files"), "{out}");
    assert!(out.contains("HELLO.C"), "{out}");
    assert!(out.contains("WORLD.B"), "{out}");
    assert!(!out.ends_with('\n'));
}

#[test]
fn ls_without_an_image_says_so() {
    assert!(ls_args(&[]).unwrap_err().contains("need an image"));
}

#[test]
fn rename_writes_the_change_back_to_disk() {
    let path = format!("{}/HELLO.C", IMG);
    let (image_path, old, new) = match rename_args(&args(&[&path, "BYE.C"])).unwrap() {
        RenameArgs::InPath { path, new_name } => {
            let (i, e) = target_from(split(&path, &[IMG]), "rename", "path has no entry to rename").unwrap();
            (i, e, new_name)
        }
        RenameArgs::Named { .. } => panic!("two arguments are a path and a name"),
    };
    assert_eq!(image_path, IMG);
    let mut img = image();
    let msg = rename_in(&mut img, &old, &new, ExtMode::Smart, &image_path).unwrap();
    assert!(msg.contains("HELLO.C"), "{msg}");
    let after = ls_report(&written_back(&img), ExtMode::Smart);
    assert!(after.contains("BYE.C"), "{after}");
    assert!(!after.contains("HELLO.C"), "{after}");
}

#[test]
fn rename_takes_the_three_argument_form_too() {
    let (old, new) = match rename_args(&args(&[IMG, "WORLD.B", "EARTH.B"])).unwrap() {
        RenameArgs::Named { image, old_name, new_name } => {
            assert_eq!(image, IMG);
            (old_name, new_name)
        }
        RenameArgs::InPath { .. } => panic!("three arguments name the image"),
    };
    let mut img = image();
    rename_in(&mut img, &old, &new, ExtMode::Smart, IMG).unwrap();
    assert!(ls_report(&written_back(&img), ExtMode::Smart).contains("EARTH.B"));
}

#[test]
fn rename_refuses_what_it_cannot_do() {
    assert!(rename_args(&[]).err().unwrap().contains("expected"));
    assert!(rename_args(&args(&["one"])).err().unwrap().contains("expected"));
    let mut img = image();
    let e = rename_in(&mut img, "NOPE.C", "X.C", ExtMode::Smart, IMG).unwrap_err();
    assert!(e.contains("not found"), "{e}");
    let e = target_from(split(IMG, &[IMG]), "rename", "path has no entry to rename").unwrap_err();
    assert!(e.contains("no entry"), "{e}");
    let e = target_from(split("/tmp/not-an-image.txt", &["/tmp/not-an-image.txt"]), "rename", "path has no entry to rename")
        .unwrap_err();
    assert!(e.contains("no .trd/.scl"), "{e}");
}

#[test]
fn delete_removes_the_entry_and_only_it() {
    let path = format!("{}/WORLD.B", IMG);
    let name = match delete_args(&args(&[&path])).unwrap() {
        DeleteArgs::InPath { path } => target_from(split(&path, &[IMG]), "delete", "path has no entry").unwrap().1,
        DeleteArgs::Named { .. } => panic!("one argument is a path"),
    };
    let mut img = image();
    delete_in(&mut img, &name, ExtMode::Smart).unwrap();
    let after = ls_report(&written_back(&img), ExtMode::Smart);
    assert!(!after.contains("WORLD.B"), "{after}");
    assert!(after.contains("HELLO.C"), "{after}");
}

#[test]
fn delete_refuses_what_it_cannot_do() {
    assert!(delete_args(&[]).err().unwrap().contains("expected"));
    let mut img = image();
    let e = delete_in(&mut img, "NOPE.C", ExtMode::Smart).unwrap_err();
    assert!(e.contains("not found"), "{e}");
}
