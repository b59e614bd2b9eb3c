//! Host path pieces the tools need: a path's file name, extension and parent,
//! as `std::path::Path` computes them, and what follows from them.
use vstd::prelude::*;
use crate::text::lower;

verus! {

/// What `Path::file_name` gives for the path `p`.
pub uninterp spec fn spec_file_name(p: Seq<char>) -> Option<Seq<char>>;

/// Index of the last `.` in a file name, or -1.
pub open spec fn last_dot_in(n: Seq<char>) -> int
    decreases n.len(),
{
    if n.len() == 0 {
        -1
    } else if n.last() == '.' {
        n.len() - 1
    } else {
        last_dot_in(n.drop_last())
    }
}

/// The extension of a file name, as `Path::extension` documents it: what
/// follows its last `.`, and none when it has no `.` or its only `.` is the
/// leading one.
pub open spec fn name_extension(n: Seq<char>) -> Option<Seq<char>> {
    if last_dot_in(n) <= 0 {
        None
    } else {
        Some(n.skip(last_dot_in(n) + 1))
    }
}

/// What `Path::extension` gives for the path `p`: the extension of its file
/// name, none when it has no file name.
pub open spec fn spec_extension(p: Seq<char>) -> Option<Seq<char>> {
    match spec_file_name(p) {
        Some(n) => name_extension(n),
        None => None,
    }
}

/// What `Path::parent` gives for the path `p`.
pub uninterp spec fn spec_parent(p: Seq<char>) -> Option<Seq<char>>;

/// `std::path::Path::file_name` of a text path (the final component, unless
/// the path ends in `..` or is a root). Claimed: the result depends on the
/// text alone. What the component rules are is left to std.
#[verifier::external_body]
pub(crate) fn path_file_name(p: &str) -> (r: Option<String>)
    ensures
        r is None <==> spec_file_name(p@) is None,
        r matches Some(n) ==> spec_file_name(p@) == Some(n@),
{
    match std::path::Path::new(p).file_name() {
        Some(n) => match n.to_str() {
            Some(t) => Some(t.to_string()),
            None => None,
        },
        None => None,
    }
}

/// `std::path::Path::extension` of a text path. Claimed, as its documentation
/// states: none when the path has no file name, none when the file name has
/// no `.` or begins with its only `.`, else what follows the file name's last
/// `.` (the file name as `path_file_name` states it).
#[verifier::external_body]
fn path_extension(p: &str) -> (r: Option<String>)
    ensures
        r is None <==> spec_extension(p@) is None,
        r matches Some(e) ==> spec_extension(p@) == Some(e@),
{
    match std::path::Path::new(p).extension() {
        Some(e) => match e.to_str() {
            Some(t) => Some(t.to_string()),
            None => None,
        },
        None => None,
    }
}

/// `std::path::Path::parent` of a text path (the path without its final
/// component; `None` for a root or the empty path). Claimed: the result
/// depends on the text alone.
#[verifier::external_body]
fn path_parent(p: &str) -> (r: Option<String>)
    ensures
        r is None <==> spec_parent(p@) is None,
        r matches Some(q) ==> spec_parent(p@) == Some(q@),
{
    match std::path::Path::new(p).parent() {
        Some(q) => match q.to_str() {
            Some(t) => Some(t.to_string()),
            None => None,
        },
        None => None,
    }
}

/// The file name of a path, or the path itself when it has none.
pub open spec fn basename_of(p: Seq<char>) -> Seq<char> {
    match spec_file_name(p) {
        Some(n) => n,
        None => p,
    }
}

/// The file name of a host path (the whole text when it has none).
pub fn basename(p: &str) -> (r: String)
    ensures
        r@ == basename_of(p@),
{
    match path_file_name(p) {
        Some(n) => n,
        None => String::from_str(p),
    }
}

/// The extension of a path, or nothing.
pub open spec fn ext_text(p: Seq<char>) -> Seq<char> {
    match spec_extension(p) {
        Some(e) => e,
        None => Seq::empty(),
    }
}

/// The extension of a host path, empty when it has none.
pub fn ext_of(p: &str) -> (r: String)
    ensures
        r@ == ext_text(p@),
{
    match path_extension(p) {
        Some(e) => e,
        None => String::new(),
    }
}

/// Whether a path names a disk image by its extension (`trd` or `scl`, any
/// case).
pub open spec fn image_ext(p: Seq<char>) -> bool {
    match spec_extension(p) {
        Some(e) => lower(e) == "trd"@ || lower(e) == "scl"@,
        None => false,
    }
}

/// Whether a host path has a disk-image extension (`trd`/`scl`, any case).
pub fn has_image_ext(p: &str) -> (r: bool)
    ensures
        r == image_ext(p@),
{
    match path_extension(p) {
        Some(e) => {
            let l = crate::text::lowered(e.as_str());
            crate::text::chars_eq(&l, "trd") || crate::text::chars_eq(&l, "scl")
        },
        None => false,
    }
}

/// A path followed by its ancestors, nearest first, for at most `n` steps up.
pub open spec fn ancestry(p: Seq<char>, n: nat) -> Seq<Seq<char>>
    decreases n,
{
    if n == 0 {
        seq![p]
    } else {
        match spec_parent(p) {
            Some(q) => seq![p] + ancestry(q, (n - 1) as nat),
            None => seq![p],
        }
    }
}

/// A host path and its ancestors, nearest first (as far up as the path has
/// characters, which covers every ancestor a path can have).
#[verifier::spinoff_prover]
pub fn path_chain(p: &str) -> (r: Vec<String>)
    ensures
        texts(r@) == ancestry(p@, p@.len()),
{
    let n = p.unicode_len();
    let mut out: Vec<String> = Vec::new();
    let mut cur = String::from_str(p);
    let mut steps: usize = n;
    let ghost start = p@;
    let ghost done: Seq<Seq<char>> = Seq::empty();
    loop
        invariant_except_break
            texts(out@) == done,
            done + ancestry(cur@, steps as nat) == ancestry(start, n as nat),
        invariant
            n == start.len(),
            steps <= n,
        ensures
            texts(out@) == ancestry(start, n as nat),
        decreases steps,
    {
        let next = if steps > 0 { path_parent(cur.as_str()) } else { None };
        let ghost c = cur@;
        out.push(cur.clone());
        proof {
            assert(texts(out@) =~= done.push(c));
        }
        match next {
            Some(q) => {
                proof {
                    assert(ancestry(c, steps as nat) == seq![c] + ancestry(q@, (steps - 1) as nat));
                    done = done.push(c);
                    assert(done + ancestry(q@, (steps - 1) as nat) =~= ancestry(start, n as nat));
                }
                cur = q;
                steps = steps - 1;
            },
            None => {
                proof {
                    assert(ancestry(c, steps as nat) == seq![c]);
                    done = done.push(c);
                    assert(done =~= ancestry(start, n as nat));
                    assert(texts(out@) == done);
                }
                break;
            },
        }
    }
    out
}

/// The text of each string.
pub open spec fn texts(v: Seq<String>) -> Seq<Seq<char>> {
    v.map_values(|s: String| s@)
}

} // verus!
