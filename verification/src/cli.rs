//! The decisions of the `zxdisk` command line tool: which command an argument
//! list asks for, how a path such as `.../image.trd/ENTRY` splits into an image
//! and an entry, what each command does to an image and what it answers. The
//! tool itself only reads and writes the files these name.
use vstd::prelude::*;
use vstd::string::StringSliceAdditionalSpecFns;
use crate::entry::{ExtMode, TrFile, TrFileView, display_name_of, views};
use crate::error::error_text;
use crate::image::{
    Format, Image, ImageView, image_added, image_entries, image_deleted, image_names, image_renamed,
    hint_view, open_result,
};
use crate::paths::{image_ext, spec_file_name, texts};
use crate::text::{chars_of, dec_chars, dec_string, trim_bounds, trim_end};

verus! {

/// The commands of the tool.
#[derive(Copy, Clone, Debug, PartialEq, Eq, Structural)]
pub enum Command {
    List,
    Rename,
    Delete,
    Extract,
    Add,
    Help,
}

/// The command a name selects (with its aliases); `None` for an unknown one.
pub open spec fn command_named(n: Seq<char>) -> Option<Command> {
    if n == "ls"@ || n == "list"@ {
        Some(Command::List)
    } else if n == "rename"@ || n == "ren"@ {
        Some(Command::Rename)
    } else if n == "delete"@ || n == "del"@ || n == "rm"@ {
        Some(Command::Delete)
    } else if n == "extract"@ || n == "get"@ {
        Some(Command::Extract)
    } else if n == "add"@ || n == "put"@ {
        Some(Command::Add)
    } else if n == "-h"@ || n == "--help"@ || n == "help"@ || n == ""@ {
        Some(Command::Help)
    } else {
        None
    }
}

/// Whether the characters in `v` are exactly those of `word`.
fn is_word(v: &Vec<char>, word: &str) -> (b: bool)
    ensures
        b == (v@ == word@),
{
    crate::text::chars_eq(v, word)
}

/// The command a name selects, if any.
pub fn command_of(name: &str) -> (r: Option<Command>)
    ensures
        r == command_named(name@),
{
    let n = chars_of(name);
    if is_word(&n, "ls") || is_word(&n, "list") {
        Some(Command::List)
    } else if is_word(&n, "rename") || is_word(&n, "ren") {
        Some(Command::Rename)
    } else if is_word(&n, "delete") || is_word(&n, "del") || is_word(&n, "rm") {
        Some(Command::Delete)
    } else if is_word(&n, "extract") || is_word(&n, "get") {
        Some(Command::Extract)
    } else if is_word(&n, "add") || is_word(&n, "put") {
        Some(Command::Add)
    } else if is_word(&n, "-h") || is_word(&n, "--help") || is_word(&n, "help") || is_word(&n, "") {
        Some(Command::Help)
    } else {
        None
    }
}

/// The answer to an unknown command.
pub fn unknown_command(name: &str) -> (r: String)
    ensures
        r@ == "unknown command: "@ + name@,
{
    let mut r = String::from_str("unknown command: ");
    r.append(name);
    r
}

/// `s` in single quotes.
pub open spec fn quoted(s: Seq<char>) -> Seq<char> {
    "'"@ + s + "'"@
}

/// Index of the first chain element that is an image file (a file, by the
/// host's answer in `files`, with a `.trd`/`.scl` extension), or -1.
pub open spec fn first_image(chain: Seq<Seq<char>>, files: Seq<bool>) -> int
    decreases chain.len(),
{
    if chain.len() == 0 || files.len() == 0 {
        -1
    } else if files[0] && image_ext(chain[0]) {
        0
    } else {
        let r = first_image(chain.drop_first(), files.drop_first());
        if r < 0 {
            -1
        } else {
            r + 1
        }
    }
}

/// How a path splits into an image and an entry, given the path and its
/// ancestors (nearest first) and which of them are files: the path itself
/// when it is an image file (no entry), else the nearest image file above it,
/// with the path's file name as the entry.
pub open spec fn split_of(path: Seq<char>, chain: Seq<Seq<char>>, files: Seq<bool>) -> Option<(Seq<char>, Option<Seq<char>>)> {
    let i = first_image(chain, files);
    if i < 0 {
        None
    } else if i == 0 {
        Some((chain[0], None))
    } else {
        match spec_file_name(path) {
            Some(n) => Some((chain[i], Some(n))),
            None => None,
        }
    }
}

proof fn lemma_first_image_step(chain: Seq<Seq<char>>, files: Seq<bool>, k: int)
    requires
        0 <= k < chain.len(),
        k < files.len(),
        forall|j: int| 0 <= j < k ==> !(files[j] && image_ext(#[trigger] chain[j])),
    ensures
        first_image(chain, files) == if files[k] && image_ext(chain[k]) {
            k
        } else {
            let r = first_image(chain.skip(k + 1), files.skip(k + 1));
            if r < 0 {
                -1
            } else {
                r + k + 1
            }
        },
    decreases k,
{
    if k > 0 {
        assert(!(files[0] && image_ext(chain[0])));
        assert forall|j: int| 0 <= j < k - 1 implies !(files.drop_first()[j] && image_ext(
            #[trigger] chain.drop_first()[j],
        )) by {
            assert(chain.drop_first()[j] == chain[j + 1]);
            assert(files.drop_first()[j] == files[j + 1]);
        }
        lemma_first_image_step(chain.drop_first(), files.drop_first(), k - 1);
        assert(chain.drop_first().skip(k) =~= chain.skip(k + 1));
        assert(files.drop_first().skip(k) =~= files.skip(k + 1));
    }
}

/// Split a path such as `/a/b/game.trd/BOOT.B` into (`/a/b/game.trd`,
/// `BOOT.B`), given the path and its ancestors (as [`crate::paths::path_chain`]
/// lists them) and which of them are files; an image path itself has no
/// entry. `None` when no image file is on the path.
#[verifier::spinoff_prover]
pub fn split_image_in(path: &str, chain: &Vec<String>, files: &Vec<bool>) -> (r: Option<(String, Option<String>)>)
    requires
        chain@.len() == files@.len(),
    ensures
        r is None <==> split_of(path@, texts(chain@), files@) is None,
        r matches Some(s) ==> split_of(path@, texts(chain@), files@) == Some(
            (
                s.0@,
                match s.1 {
                    Some(n) => Some(n@),
                    None => None,
                },
            ),
        ),
{
    let ghost ch = texts(chain@);
    let mut k: usize = 0;
    while k < chain.len()
        invariant
            ch == texts(chain@),
            chain@.len() == files@.len(),
            k <= chain@.len(),
            forall|j: int| 0 <= j < k ==> !(files@[j] && image_ext(#[trigger] ch[j])),
        decreases chain@.len() - k,
    {
        if files[k] && crate::paths::has_image_ext(chain[k].as_str()) {
            proof {
                lemma_first_image_step(ch, files@, k as int);
            }
            if k == 0 {
                return Some((chain[0].clone(), None));
            }
            let name = crate::paths::path_file_name(path);
            return match name {
                Some(n) => Some((chain[k].clone(), Some(n))),
                None => None,
            };
        }
        k = k + 1;
    }
    proof {
        if chain@.len() > 0 {
            lemma_first_image_step(ch, files@, chain@.len() - 1);
            assert(ch.skip(chain@.len() as int) =~= Seq::<Seq<char>>::empty());
        }
    }
    None
}

/// Read the arguments of `ls`: the image path (the first argument).
pub fn ls_args(args: &[String]) -> (r: Result<String, String>)
    ensures
        args@.len() >= 1 ==> (r matches Ok(p) && p@ == args@[0]@),
        args@.len() == 0 ==> (r matches Err(e) && e@ == "ls: need an image path"@),
{
    if args.len() >= 1 {
        Ok(args[0].clone())
    } else {
        Err(String::from_str("ls: need an image path"))
    }
}

/// What the arguments of `rename` name: an entry path and the new name, or
/// an image, an entry in it and the new name.
pub enum RenameArgs {
    InPath { path: String, new_name: String },
    Named { image: String, old_name: String, new_name: String },
}

/// The usage line of `rename`.
pub open spec fn rename_usage() -> Seq<char> {
    "rename: expected <image.trd/OLD> <NEW>  or  <image> <OLD> <NEW>"@
}

/// Read the arguments of `rename`: two (`<image.trd/OLD> <NEW>`) or three
/// (`<image> <OLD> <NEW>`); anything else is answered with the usage.
pub fn rename_args(args: &[String]) -> (r: Result<RenameArgs, String>)
    ensures
        args@.len() == 2 ==> (r matches Ok(RenameArgs::InPath { path, new_name }) && path@ == args@[0]@
            && new_name@ == args@[1]@),
        args@.len() == 3 ==> (r matches Ok(RenameArgs::Named { image, old_name, new_name })
            && image@ == args@[0]@ && old_name@ == args@[1]@ && new_name@ == args@[2]@),
        args@.len() != 2 && args@.len() != 3 ==> (r matches Err(e) && e@ == rename_usage()),
{
    if args.len() == 2 {
        Ok(RenameArgs::InPath { path: args[0].clone(), new_name: args[1].clone() })
    } else if args.len() == 3 {
        Ok(RenameArgs::Named { image: args[0].clone(), old_name: args[1].clone(), new_name: args[2].clone() })
    } else {
        Err(String::from_str("rename: expected <image.trd/OLD> <NEW>  or  <image> <OLD> <NEW>"))
    }
}

/// What the arguments of `delete` name: an entry path, or an image and an
/// entry in it.
pub enum DeleteArgs {
    InPath { path: String },
    Named { image: String, name: String },
}

/// The usage line of `delete`.
pub open spec fn delete_usage() -> Seq<char> {
    "delete: expected <image.trd/ENTRY>  or  <image> <ENTRY>"@
}

/// Read the arguments of `delete`: one (`<image.trd/ENTRY>`) or two
/// (`<image> <ENTRY>`).
pub fn delete_args(args: &[String]) -> (r: Result<DeleteArgs, String>)
    ensures
        args@.len() == 1 ==> (r matches Ok(DeleteArgs::InPath { path }) && path@ == args@[0]@),
        args@.len() == 2 ==> (r matches Ok(DeleteArgs::Named { image, name }) && image@ == args@[0]@
            && name@ == args@[1]@),
        args@.len() != 1 && args@.len() != 2 ==> (r matches Err(e) && e@ == delete_usage()),
{
    if args.len() == 1 {
        Ok(DeleteArgs::InPath { path: args[0].clone() })
    } else if args.len() == 2 {
        Ok(DeleteArgs::Named { image: args[0].clone(), name: args[1].clone() })
    } else {
        Err(String::from_str("delete: expected <image.trd/ENTRY>  or  <image> <ENTRY>"))
    }
}

/// The usage line of `extract`.
pub open spec fn extract_usage() -> Seq<char> {
    "extract: expected <image.trd/ENTRY> <outfile>"@
}

/// Read the arguments of `extract`: an entry path and an output file.
pub fn extract_args(args: &[String]) -> (r: Result<(String, String), String>)
    ensures
        args@.len() == 2 ==> (r matches Ok(a) && a.0@ == args@[0]@ && a.1@ == args@[1]@),
        args@.len() != 2 ==> (r matches Err(e) && e@ == extract_usage()),
{
    if args.len() == 2 {
        Ok((args[0].clone(), args[1].clone()))
    } else {
        Err(String::from_str("extract: expected <image.trd/ENTRY> <outfile>"))
    }
}

/// The usage line of `add`.
pub open spec fn add_usage() -> Seq<char> {
    "add: expected <image> <hostfile> [asname]"@
}

/// Read the arguments of `add`: an image, a host file, and optionally the
/// name to store it under.
pub fn add_args(args: &[String]) -> (r: Result<(String, String, Option<String>), String>)
    ensures
        args@.len() == 2 ==> (r matches Ok(a) && a.0@ == args@[0]@ && a.1@ == args@[1]@ && a.2 is None),
        args@.len() == 3 ==> (r matches Ok(a) && a.0@ == args@[0]@ && a.1@ == args@[1]@ && (a.2 matches Some(n)
            && n@ == args@[2]@)),
        args@.len() != 2 && args@.len() != 3 ==> (r matches Err(e) && e@ == add_usage()),
{
    if args.len() == 2 {
        Ok((args[0].clone(), args[1].clone(), None))
    } else if args.len() == 3 {
        Ok((args[0].clone(), args[1].clone(), Some(args[2].clone())))
    } else {
        Err(String::from_str("add: expected <image> <hostfile> [asname]"))
    }
}

/// The image and entry a split path gives, or the refusal: `what` is the
/// command (`rename`, `delete`, `extract`), and `no_entry` its complaint about
/// a path that is an image with no entry in it.
pub open spec fn target_of(split: Option<(Seq<char>, Option<Seq<char>>)>, what: Seq<char>, no_entry: Seq<char>) -> Result<(Seq<char>, Seq<char>), Seq<char>> {
    match split {
        None => Err(what + ": no .trd/.scl in path"@),
        Some((img, None)) => Err(what + ": "@ + no_entry),
        Some((img, Some(e))) => Ok((img, e)),
    }
}

/// The image and entry of a split path for command `what`, or the message
/// refusing it.
pub fn target_from(split: Option<(String, Option<String>)>, what: &str, no_entry: &str) -> (r: Result<(String, String), String>)
    ensures
        match target_of(
            match split {
                Some((i, e)) => Some((i@, match e {
                    Some(n) => Some(n@),
                    None => None,
                })),
                None => None,
            },
            what@,
            no_entry@,
        ) {
            Ok((i, e)) => r matches Ok(t) && t.0@ == i && t.1@ == e,
            Err(m) => r matches Err(x) && x@ == m,
        },
{
    match split {
        None => {
            let mut m = String::from_str(what);
            m.append(": no .trd/.scl in path");
            Err(m)
        },
        Some((img, None)) => {
            let mut m = String::from_str(what);
            m.append(": ");
            m.append(no_entry);
            Err(m)
        },
        Some((img, Some(e))) => Ok((img, e)),
    }
}

/// What `rename` answers after looking for `old` in the image called `shown`.
pub open spec fn rename_answer(found: bool, old: Seq<char>, new: Seq<char>, shown: Seq<char>) -> Result<Seq<char>, Seq<char>> {
    if found {
        Ok("renamed "@ + quoted(old) + " -> "@ + quoted(new))
    } else {
        Err("rename: "@ + quoted(old) + " not found in "@ + shown)
    }
}

/// Rename `from` to `to` in an image (shown in messages as `shown`); the
/// answer says what was done, or that there was no such entry.
pub fn rename_in(img: &mut Image, from: &str, to: &str, mode: ExtMode, shown: &str) -> (r: Result<String, String>)
    requires
        old(img).wf(),
    ensures
        final(img).wf(),
        final(img)@ == image_renamed(old(img)@, from@, to.spec_bytes(), mode),
        match rename_answer(image_names(old(img)@, from@, mode), from@, to@, shown@) {
            Ok(m) => r matches Ok(x) && x@ == m,
            Err(m) => r matches Err(x) && x@ == m,
        },
{
    let found = img.rename_file_with(from, to, mode);
    proof {
        reveal_strlit("'");
        reveal_strlit("rename: '");
        reveal_strlit("rename: ");
        reveal_strlit("' not found in ");
        reveal_strlit(" not found in ");
        reveal_strlit("renamed '");
        reveal_strlit("renamed ");
        reveal_strlit("' -> '");
        reveal_strlit(" -> ");
    }
    if !found {
        let mut m = String::from_str("rename: '");
        m.append(from);
        m.append("' not found in ");
        m.append(shown);
        assert(m@ =~= "rename: "@ + quoted(from@) + " not found in "@ + shown@);
        return Err(m);
    }
    let mut m = String::from_str("renamed '");
    m.append(from);
    m.append("' -> '");
    m.append(to);
    m.append("'");
    assert(m@ =~= "renamed "@ + quoted(from@) + " -> "@ + quoted(to@));
    Ok(m)
}

/// What `delete` answers after looking for `name`.
pub open spec fn delete_answer(found: bool, name: Seq<char>) -> Result<Seq<char>, Seq<char>> {
    if found {
        Ok("deleted "@ + quoted(name))
    } else {
        Err("delete: "@ + quoted(name) + " not found"@)
    }
}

/// Delete the entry `name` from an image; the answer says it was deleted, or
/// that there was no such entry.
pub fn delete_in(img: &mut Image, name: &str, mode: ExtMode) -> (r: Result<String, String>)
    requires
        old(img).wf(),
    ensures
        final(img).wf(),
        final(img)@ == image_deleted(old(img)@, name@, mode),
        match delete_answer(image_names(old(img)@, name@, mode), name@) {
            Ok(m) => r matches Ok(x) && x@ == m,
            Err(m) => r matches Err(x) && x@ == m,
        },
{
    let found = img.delete_file_with(name, mode);
    proof {
        reveal_strlit("'");
        reveal_strlit("delete: '");
        reveal_strlit("delete: ");
        reveal_strlit("' not found");
        reveal_strlit(" not found");
        reveal_strlit("deleted '");
        reveal_strlit("deleted ");
    }
    if !found {
        let mut m = String::from_str("delete: '");
        m.append(name);
        m.append("' not found");
        assert(m@ =~= "delete: "@ + quoted(name@) + " not found"@);
        return Err(m);
    }
    let mut m = String::from_str("deleted '");
    m.append(name);
    m.append("'");
    assert(m@ =~= "deleted "@ + quoted(name@));
    Ok(m)
}

/// Index of the first entry whose display name (in `mode`) is `name`, or -1.
pub open spec fn first_displayed(es: Seq<TrFileView>, name: Seq<char>, mode: ExtMode) -> int
    decreases es.len(),
{
    if es.len() == 0 {
        -1
    } else if display_name_of(es[0], mode) == name {
        0
    } else {
        let r = first_displayed(es.drop_first(), name, mode);
        if r < 0 {
            -1
        } else {
            r + 1
        }
    }
}

proof fn lemma_first_displayed_is(es: Seq<TrFileView>, name: Seq<char>, mode: ExtMode, i: int)
    requires
        -1 <= i < es.len(),
        i >= 0 ==> display_name_of(es[i], mode) == name,
        forall|j: int| 0 <= j < es.len() && (i < 0 || j < i) ==> display_name_of(#[trigger] es[j], mode) != name,
    ensures
        first_displayed(es, name, mode) == i,
    decreases es.len(),
{
    if es.len() > 0 && i != 0 {
        assert(display_name_of(es[0], mode) != name);
        assert forall|j: int| 0 <= j < es.len() - 1 && (i - 1 < 0 || j < i - 1) implies display_name_of(
            #[trigger] es.drop_first()[j],
            mode,
        ) != name by {
            assert(es.drop_first()[j] == es[j + 1]);
        }
        lemma_first_displayed_is(es.drop_first(), name, mode, if i < 0 {
            -1
        } else {
            i - 1
        });
    }
}

/// What `extract` gives for `entry` of an image, written to `out`: the entry's
/// data and the report, or the refusal.
pub open spec fn extract_answer(v: ImageView, entry: Seq<char>, out: Seq<char>, mode: ExtMode) -> Result<(Seq<u8>, Seq<char>), Seq<char>> {
    let es = image_entries(v);
    let i = first_displayed(es, entry, mode);
    if i < 0 {
        Err("extract: "@ + quoted(entry) + " not found"@)
    } else {
        Ok((es[i].data, "extracted "@ + quoted(entry) + " -> "@ + out + " ("@ + dec_chars(es[i].data.len()) + " bytes)"@))
    }
}

/// Find `entry` (by display name in `mode`) in an image, for writing to
/// `out`: its data and the report, or the message that it is not there.
#[verifier::spinoff_prover]
pub fn extract_from(img: &Image, entry: &str, out: &str, mode: ExtMode) -> (r: Result<(Vec<u8>, String), String>)
    requires
        img.wf(),
    ensures
        match extract_answer(img@, entry@, out@, mode) {
            Ok((d, m)) => r matches Ok(x) && x.0@ == d && x.1@ == m,
            Err(m) => r matches Err(x) && x@ == m,
        },
{
    let es = img.entries();
    let ghost fs = views(es@);
    proof {
        reveal_strlit("'");
        reveal_strlit("extract: '");
        reveal_strlit("extract: ");
        reveal_strlit("' not found");
        reveal_strlit(" not found");
        reveal_strlit("extracted '");
        reveal_strlit("extracted ");
        reveal_strlit("' -> ");
        reveal_strlit(" -> ");
        reveal_strlit(" (");
        reveal_strlit(" bytes)");
    }
    let mut i: usize = 0;
    while i < es.len()
        invariant
            fs == views(es@),
            fs == image_entries(img@),
            i <= es@.len(),
            forall|j: int| 0 <= j < i ==> display_name_of(#[trigger] fs[j], mode) != entry@,
        decreases es@.len() - i,
    {
        let n = es[i].display_name_with(mode);
        if n == String::from_str(entry) {
            proof {
                assert(fs[i as int] == es@[i as int]@);
                lemma_first_displayed_is(fs, entry@, mode, i as int);
            }
            let data = crate::bytes::copy_bytes(&es[i].data);
            let mut m = String::from_str("extracted ");
            m.append("'");
            m.append(entry);
            m.append("'");
            m.append(" -> ");
            m.append(out);
            m.append(" (");
            let len = es[i].data.len();
            let d = dec_string(len as u64);
            assert(len as u64 as nat == fs[i as int].data.len());
            assert(d@ == dec_chars(fs[i as int].data.len()));
            m.append(d.as_str());
            m.append(" bytes)");
            assert(m@ =~= "extracted "@ + quoted(entry@) + " -> "@ + out@ + " ("@ + dec_chars(
                fs[i as int].data.len(),
            ) + " bytes)"@);
            return Ok((data, m));
        }
        proof {
            assert(fs[i as int] == es@[i as int]@);
        }
        i = i + 1;
    }
    proof {
        lemma_first_displayed_is(fs, entry@, mode, -1);
    }
    let mut m = String::from_str("extract: '");
    m.append(entry);
    m.append("' not found");
    assert(m@ =~= "extract: "@ + quoted(entry@) + " not found"@);
    Err(m)
}

/// What `add` answers: the stored name, or why the image refused the file.
pub open spec fn add_answer(v: ImageView, f: TrFileView, mode: ExtMode) -> Result<Seq<char>, Seq<char>> {
    match image_added(v, f) {
        Ok(_) => Ok("added "@ + quoted(display_name_of(f, mode))),
        Err(e) => Err("add failed: "@ + error_text(e)),
    }
}

/// Add `file` to an image; the answer names what was stored, or says why the
/// image refused it (and then the image is unchanged).
pub fn add_to(img: &mut Image, file: &TrFile, mode: ExtMode) -> (r: Result<String, String>)
    requires
        old(img).wf(),
    ensures
        final(img).wf(),
        match image_added(old(img)@, file@) {
            Ok(v) => final(img)@ == v,
            Err(_) => final(img)@ == old(img)@,
        },
        match add_answer(old(img)@, file@, mode) {
            Ok(m) => r matches Ok(x) && x@ == m,
            Err(m) => r matches Err(x) && x@ == m,
        },
{
    proof {
        reveal_strlit("'");
        reveal_strlit("added '");
        reveal_strlit("added ");
    }
    match img.add_file(file) {
        Ok(()) => {
            let mut m = String::from_str("added '");
            let n = file.display_name_with(mode);
            m.append(n.as_str());
            m.append("'");
            assert(m@ =~= "added "@ + quoted(display_name_of(file@, mode)));
            Ok(m)
        },
        Err(e) => {
            let mut m = String::from_str("add failed: ");
            let t = e.message();
            m.append(t.as_str());
            Err(m)
        },
    }
}

/// Open the image bytes read from a file shown as `shown` (with its
/// extension as a hint); a refusal names the file and the reason.
pub fn open_image(bytes: &[u8], ext: Option<&str>, shown: &str) -> (r: Result<Image, String>)
    ensures
        match open_result(bytes@, hint_view(ext)) {
            Ok(v) => r matches Ok(img) && img@ == v && img.wf(),
            Err(t) => r matches Err(m) && m@ == shown@ + ": "@ + t,
        },
{
    match Image::from_bytes(bytes, ext) {
        Ok(img) => Ok(img),
        Err(e) => {
            let mut m = String::from_str(shown);
            m.append(": ");
            let t = e.message();
            m.append(t.as_str());
            Err(m)
        },
    }
}

/// `n` spaces.
pub open spec fn spaces(n: int) -> Seq<char> {
    Seq::new(n as nat, |i: int| ' ')
}

/// `s` padded with spaces on the right to at least `w` characters.
pub open spec fn pad_right(s: Seq<char>, w: int) -> Seq<char> {
    if s.len() >= w {
        s
    } else {
        s + spaces(w - s.len())
    }
}

/// `s` padded with spaces on the left to at least `w` characters.
pub open spec fn pad_left(s: Seq<char>, w: int) -> Seq<char> {
    if s.len() >= w {
        s
    } else {
        spaces(w - s.len()) + s
    }
}

/// The name a format is listed under.
pub open spec fn format_label(f: Format) -> Seq<char> {
    match f {
        Format::Trd => "Trd"@,
        Format::Scl => "Scl"@,
    }
}

/// The listing line of one entry: name (left-aligned in 12), start (right in
/// 7), length (right in 8), and `deleted` for a deleted one.
pub open spec fn ls_line(e: TrFileView, mode: ExtMode) -> Seq<char> {
    pad_right(display_name_of(e, mode), 12) + " "@ + pad_left(dec_chars(e.start as nat), 7) + " "@ + pad_left(
        dec_chars(e.length as nat),
        8,
    ) + " "@ + (if e.deleted {
        "deleted"@
    } else {
        Seq::<char>::empty()
    }) + "\n"@
}

/// The listing lines of the entries, in order.
pub open spec fn ls_lines(es: Seq<TrFileView>, mode: ExtMode) -> Seq<char>
    decreases es.len(),
{
    if es.len() == 0 {
        Seq::empty()
    } else {
        ls_lines(es.drop_last(), mode) + ls_line(es.last(), mode)
    }
}

/// The format of an image.
pub open spec fn format_of(v: ImageView) -> Format {
    match v {
        ImageView::Trd(_) => Format::Trd,
        ImageView::Scl(_) => Format::Scl,
    }
}

/// What `ls` prints for an image: the format and the number of entries, then
/// one line per entry; no trailing whitespace.
pub open spec fn ls_text(v: ImageView, mode: ExtMode) -> Seq<char> {
    let es = image_entries(v);
    trim_end(format_label(format_of(v)) + " ("@ + dec_chars(es.len()) + " files)\n"@ + ls_lines(es, mode))
}

/// Append `s` padded with spaces to `w` characters (on the left or right).
#[verifier::spinoff_prover]
fn push_padded(out: &mut String, s: &String, w: usize, left: bool)
    ensures
        final(out)@ == old(out)@ + if left {
            pad_left(s@, w as int)
        } else {
            pad_right(s@, w as int)
        },
{
    proof {
        reveal_strlit(" ");
    }
    let n = s.as_str().unicode_len();
    if !left {
        out.append(s.as_str());
    }
    let ghost base = out@;
    let mut k: usize = n;
    while k < w
        invariant
            n == s@.len(),
            n <= k,
            k == n || k <= w,
            out@ == base + spaces(k - n),
            " "@ == seq![' '],
        decreases w - k,
    {
        out.append(" ");
        k = k + 1;
        assert(out@ =~= base + spaces(k - n));
    }
    if left {
        out.append(s.as_str());
    }
    proof {
        if n >= w {
            assert(k == n);
            assert(spaces(k - n) =~= Seq::<char>::empty());
        } else {
            assert(k == w);
        }
        if left {
            assert(out@ =~= old(out)@ + pad_left(s@, w as int));
        } else {
            assert(out@ =~= old(out)@ + pad_right(s@, w as int));
        }
    }
}

/// Append the listing line of `e`.
fn push_ls_line(out: &mut String, e: &TrFile, mode: ExtMode)
    ensures
        final(out)@ == old(out)@ + ls_line(e@, mode),
{
    let name = e.display_name_with(mode);
    push_padded(out, &name, 12, false);
    out.append(" ");
    let st = dec_string(e.start as u64);
    push_padded(out, &st, 7, true);
    out.append(" ");
    let ln = dec_string(e.length as u64);
    push_padded(out, &ln, 8, true);
    out.append(" ");
    if e.deleted {
        out.append("deleted");
    }
    out.append("\n");
    assert(out@ =~= old(out)@ + ls_line(e@, mode));
}

/// The listing `ls` prints for an image, names in `mode`.
#[verifier::spinoff_prover]
pub fn ls_report(img: &Image, mode: ExtMode) -> (r: String)
    requires
        img.wf(),
    ensures
        r@ == ls_text(img@, mode),
{
    let es = img.entries();
    let ghost fs = views(es@);
    let mut out = String::new();
    match img.format() {
        Format::Trd => out.append("Trd"),
        Format::Scl => out.append("Scl"),
    }
    out.append(" (");
    let count = dec_string(es.len() as u64);
    out.append(count.as_str());
    out.append(" files)\n");
    let ghost head = out@;
    assert(fs.take(0) =~= Seq::<TrFileView>::empty());
    let mut i: usize = 0;
    while i < es.len()
        invariant
            fs == views(es@),
            i <= es@.len(),
            out@ == head + ls_lines(fs.take(i as int), mode),
        decreases es@.len() - i,
    {
        push_ls_line(&mut out, &es[i], mode);
        proof {
            assert(fs[i as int] == es@[i as int]@);
            assert(fs.take(i + 1).drop_last() =~= fs.take(i as int));
            assert(fs.take(i + 1).last() == fs[i as int]);
            assert(out@ =~= head + ls_lines(fs.take(i + 1), mode));
        }
        i = i + 1;
    }
    proof {
        assert(fs.take(i as int) =~= fs);
    }
    let cs = chars_of(out.as_str());
    let (lo, hi) = trim_bounds(&cs);
    String::from_str(out.as_str().substring_char(0, hi))
}

} // verus!
