//! The shared `zxdisk.conf` settings text: `key = value` lines, with `;`, `#`
//! and `[section]` lines ignored, read and updated in place; and the values
//! the tools understand (zoom, border colour, switches, disk geometry).
use vstd::prelude::*;
use crate::trd::DiskType;
use crate::text::{dec_chars, dec_string};
use crate::text::{
    chars_of, char_is_ws, char_lower, lemma_trim_start_count_is, lower, lower_char, normalize, normalized,
    chars_eq, trim, trim_bounds, trim_start_count, is_ws,
};

verus! {

/// Index of the first `c` in `s`, or -1.
pub open spec fn first_of(s: Seq<char>, c: char) -> int
    decreases s.len(),
{
    if s.len() == 0 {
        -1
    } else if s[0] == c {
        0
    } else {
        let r = first_of(s.drop_first(), c);
        if r < 0 {
            -1
        } else {
            r + 1
        }
    }
}

/// What `first_of` finds: the first occurrence, or none at all.
pub proof fn lemma_first_of(s: Seq<char>, c: char)
    ensures
        -1 <= first_of(s, c) < s.len(),
        first_of(s, c) >= 0 ==> s[first_of(s, c)] == c,
        forall|j: int| 0 <= j < s.len() && (first_of(s, c) < 0 || j < first_of(s, c)) ==> s[j] != c,
    decreases s.len(),
{
    if s.len() > 0 && s[0] != c {
        lemma_first_of(s.drop_first(), c);
        assert forall|j: int| 0 <= j < s.len() && (first_of(s, c) < 0 || j < first_of(s, c)) implies s[j] != c by {
            if j > 0 {
                assert(s[j] == s.drop_first()[j - 1]);
            }
        }
    }
}

/// An index with the defining property of the first `c` is `first_of`.
pub proof fn lemma_first_of_is(s: Seq<char>, c: char, i: int)
    requires
        -1 <= i < s.len(),
        i >= 0 ==> s[i] == c,
        forall|j: int| 0 <= j < s.len() && (i < 0 || j < i) ==> s[j] != c,
    ensures
        first_of(s, c) == i,
{
    lemma_first_of(s, c);
    let f = first_of(s, c);
    if f >= 0 && (i < 0 || f < i) {
        assert(s[f] != c);
    }
    if i >= 0 && (f < 0 || i < f) {
        assert(s[i] != c);
    }
}

/// A line without the `\r` of a `\r\n` ending.
pub open spec fn line_body(l: Seq<char>) -> Seq<char> {
    if l.len() > 0 && l.last() == '\r' {
        l.drop_last()
    } else {
        l
    }
}

/// The lines of a text as `str::lines` gives them: split at `\n` (a `\r`
/// before it dropped too), with no empty line after a final line ending.
pub open spec fn lines_of(s: Seq<char>) -> Seq<Seq<char>>
    decreases s.len(),
{
    if s.len() == 0 {
        Seq::empty()
    } else {
        let i = first_of(s, '\n');
        if i < 0 {
            seq![s]
        } else {
            proof {
                lemma_first_of(s, '\n');
            }
            seq![line_body(s.take(i))] + lines_of(s.skip(i + 1))
        }
    }
}

/// Every span lies within the first `n` characters.
pub open spec fn spans_fit(spans: Seq<(usize, usize)>, n: int) -> bool {
    forall|k: int| 0 <= k < spans.len() ==> #[trigger] spans[k].0 <= spans[k].1 <= n
}

/// The pieces of `cs` the spans cover.
pub open spec fn span_texts(cs: Seq<char>, spans: Seq<(usize, usize)>) -> Seq<Seq<char>> {
    Seq::new(spans.len(), |k: int| cs.subrange(spans[k].0 as int, spans[k].1 as int))
}

/// The character spans of the lines of `cs`, in order.
#[verifier::spinoff_prover]
pub fn line_spans(cs: &Vec<char>) -> (r: Vec<(usize, usize)>)
    ensures
        spans_fit(r@, cs@.len() as int),
        span_texts(cs@, r@) == lines_of(cs@),
{
    let n = cs.len();
    let mut spans: Vec<(usize, usize)> = Vec::new();
    let mut start: usize = 0;
    assert(cs@.skip(0) =~= cs@);
    assert(span_texts(cs@, spans@) + lines_of(cs@.skip(0)) =~= lines_of(cs@));
    while start < n
        invariant
            n == cs@.len(),
            start <= n,
            spans_fit(spans@, n as int),
            span_texts(cs@, spans@) + lines_of(cs@.skip(start as int)) == lines_of(cs@),
        decreases n - start,
    {
        let ghost rest = cs@.skip(start as int);
        let ghost before = span_texts(cs@, spans@);
        let mut j: usize = start;
        while j < n && cs[j] != '\n'
            invariant
                start <= j <= n,
                n == cs@.len(),
                forall|q: int| start <= q < j ==> cs@[q] != '\n',
            decreases n - j,
        {
            j = j + 1;
        }
        if j < n {
            proof {
                lemma_first_of_is(rest, '\n', j - start);
                assert(rest.skip(j - start + 1) =~= cs@.skip(j + 1));
            }
            let end = if j > start && cs[j - 1] == '\r' { j - 1 } else { j };
            spans.push((start, end));
            proof {
                assert(line_body(rest.take(j - start)) =~= cs@.subrange(start as int, end as int));
                assert(lines_of(rest) == seq![line_body(rest.take(j - start))] + lines_of(
                    rest.skip(j - start + 1),
                ));
                assert(span_texts(cs@, spans@) =~= before.push(cs@.subrange(start as int, end as int)));
                assert(span_texts(cs@, spans@) + lines_of(cs@.skip(j + 1)) =~= lines_of(cs@));
            }
            start = j + 1;
        } else {
            spans.push((start, n));
            proof {
                lemma_first_of_is(rest, '\n', -1);
                assert(rest =~= cs@.subrange(start as int, n as int));
                assert(lines_of(rest) == seq![rest]);
                assert(span_texts(cs@, spans@) =~= before.push(rest));
                assert(cs@.skip(n as int) =~= Seq::<char>::empty());
                assert(span_texts(cs@, spans@) + lines_of(cs@.skip(n as int)) =~= lines_of(cs@));
            }
            start = n;
        }
    }
    proof {
        assert(cs@.skip(n as int) =~= Seq::<char>::empty());
        assert(span_texts(cs@, spans@) + lines_of(cs@.skip(n as int)) =~= span_texts(cs@, spans@));
    }
    spans
}

/// A line that opens with `;`, `#` or `[` is a comment or a section header.
pub open spec fn is_comment_start(c: char) -> bool {
    c == ';' || c == '#' || c == '['
}

/// The value a settings line gives `key`: the line, trimmed, is no comment,
/// has an `=`, and the part before it, trimmed, equals `key` ignoring ASCII
/// case; the value is the part after it, trimmed.
pub open spec fn line_value(line: Seq<char>, key: Seq<char>) -> Option<Seq<char>> {
    let t = trim(line);
    let e = first_of(t, '=');
    if t.len() == 0 || is_comment_start(t[0]) || e < 0 {
        None
    } else if lower(trim(t.take(e))) == lower(key) {
        Some(trim(t.skip(e + 1)))
    } else {
        None
    }
}

/// The value the first line that sets `key` gives it.
pub open spec fn value_in(lines: Seq<Seq<char>>, key: Seq<char>) -> Option<Seq<char>>
    decreases lines.len(),
{
    if lines.len() == 0 {
        None
    } else {
        match line_value(lines[0], key) {
            Some(v) => Some(v),
            None => value_in(lines.drop_first(), key),
        }
    }
}

/// The value a settings text gives `key`, first match wins.
pub open spec fn setting_value(text: Seq<char>, key: Seq<char>) -> Option<Seq<char>> {
    value_in(lines_of(text), key)
}

/// A copy of `v[lo..hi]`.
fn sub_chars(v: &Vec<char>, lo: usize, hi: usize) -> (r: Vec<char>)
    requires
        lo <= hi <= v@.len(),
    ensures
        r@ == v@.subrange(lo as int, hi as int),
{
    let mut r: Vec<char> = Vec::new();
    let mut i: usize = lo;
    while i < hi
        invariant
            lo <= i <= hi <= v@.len(),
            r@ == v@.subrange(lo as int, i as int),
        decreases hi - i,
    {
        r.push(v[i]);
        i = i + 1;
        assert(r@ =~= v@.subrange(lo as int, i as int));
    }
    r
}

/// Index of the first `c` in `v`, if any.
fn find_char(v: &Vec<char>, c: char) -> (r: Option<usize>)
    ensures
        r matches Some(i) ==> first_of(v@, c) == i,
        r is None ==> first_of(v@, c) == -1,
{
    let mut i: usize = 0;
    while i < v.len()
        invariant
            i <= v@.len(),
            forall|j: int| 0 <= j < i ==> v@[j] != c,
        decreases v@.len() - i,
    {
        if v[i] == c {
            proof {
                lemma_first_of_is(v@, c, i as int);
            }
            return Some(i);
        }
        i = i + 1;
    }
    proof {
        lemma_first_of_is(v@, c, -1);
    }
    None
}

/// Whether two character strings are equal ignoring ASCII case.
fn same_ignoring_case(a: &Vec<char>, b: &Vec<char>) -> (r: bool)
    ensures
        r == (lower(a@) == lower(b@)),
{
    if a.len() != b.len() {
        assert(lower(a@).len() != lower(b@).len());
        return false;
    }
    let mut i: usize = 0;
    while i < a.len()
        invariant
            a@.len() == b@.len(),
            i <= a@.len(),
            forall|j: int| 0 <= j < i ==> lower_char(a@[j]) == lower_char(b@[j]),
        decreases a@.len() - i,
    {
        if char_lower(a[i]) != char_lower(b[i]) {
            assert(lower(a@)[i as int] != lower(b@)[i as int]);
            return false;
        }
        i = i + 1;
    }
    assert(lower(a@) =~= lower(b@));
    true
}

/// Where the value `line` gives `key` lies in `line`, if it gives one.
#[verifier::spinoff_prover]
fn line_value_bounds(line: &Vec<char>, key: &Vec<char>) -> (r: Option<(usize, usize)>)
    ensures
        r is None <==> line_value(line@, key@) is None,
        r matches Some(b) ==> b.0 <= b.1 <= line@.len() && line_value(line@, key@) == Some(
            line@.subrange(b.0 as int, b.1 as int),
        ),
{
    let (lo, hi) = trim_bounds(line);
    let t = sub_chars(line, lo, hi);
    if t.len() == 0 {
        return None;
    }
    let c0 = t[0];
    if c0 == ';' || c0 == '#' || c0 == '[' {
        return None;
    }
    let e = match find_char(&t, '=') {
        Some(e) => e,
        None => {
            return None;
        },
    };
    proof {
        lemma_first_of(t@, '=');
    }
    let k = sub_chars(&t, 0, e);
    let (klo, khi) = trim_bounds(&k);
    let kt = sub_chars(&k, klo, khi);
    assert(k@ =~= t@.take(e as int));
    if !same_ignoring_case(&kt, key) {
        return None;
    }
    let v = sub_chars(&t, e + 1, t.len());
    assert(v@ =~= t@.skip(e + 1));
    let (vlo, vhi) = trim_bounds(&v);
    proof {
        assert(line@.subrange((lo + e + 1 + vlo) as int, (lo + e + 1 + vhi) as int) =~= v@.subrange(
            vlo as int,
            vhi as int,
        ));
    }
    Some((lo + e + 1 + vlo, lo + e + 1 + vhi))
}

/// The value line `span` of `cs` (the characters of `text`) gives `key`.
fn value_on_line(text: &str, cs: &Vec<char>, span: (usize, usize), key: &Vec<char>) -> (r: Option<String>)
    requires
        cs@ == text@,
        span.0 <= span.1 <= cs@.len(),
    ensures
        r is None <==> line_value(cs@.subrange(span.0 as int, span.1 as int), key@) is None,
        r matches Some(v) ==> line_value(cs@.subrange(span.0 as int, span.1 as int), key@) == Some(v@),
{
    let (lo, hi) = span;
    let line = sub_chars(cs, lo, hi);
    match line_value_bounds(&line, key) {
        Some((a, b)) => {
            proof {
                assert(cs@.subrange(lo + a, lo + b) =~= line@.subrange(a as int, b as int));
            }
            Some(String::from_str(text.substring_char(lo + a, lo + b)))
        },
        None => None,
    }
}

/// Read one `key = value` from a settings text: comments (`;`, `#`) and
/// `[section]` lines are skipped, the key matches ignoring ASCII case and
/// surrounding spaces, the value comes back trimmed, first match wins.
#[verifier::spinoff_prover]
pub fn setting_in(text: &str, key: &str) -> (r: Option<String>)
    ensures
        r is None <==> setting_value(text@, key@) is None,
        r matches Some(v) ==> setting_value(text@, key@) == Some(v@),
{
    let cs = chars_of(text);
    let kc = chars_of(key);
    let spans = line_spans(&cs);
    let ghost all = lines_of(cs@);
    assert(all.skip(0) =~= all);
    let mut k: usize = 0;
    while k < spans.len()
        invariant
            cs@ == text@,
            kc@ == key@,
            all == lines_of(cs@),
            spans_fit(spans@, cs@.len() as int),
            span_texts(cs@, spans@) == all,
            k <= spans@.len(),
            value_in(all.skip(k as int), kc@) == value_in(all, kc@),
        decreases spans@.len() - k,
    {
        proof {
            assert(all.skip(k as int)[0] == all[k as int]);
            assert(all.skip(k as int).drop_first() =~= all.skip(k + 1));
            assert(spans@[k as int].0 <= spans@[k as int].1 <= cs@.len());
            assert(all[k as int] == cs@.subrange(spans@[k as int].0 as int, spans@[k as int].1 as int));
        }
        let r = value_on_line(text, &cs, spans[k], &kc);
        if r.is_some() {
            proof {
                assert(line_value(all.skip(k as int)[0], kc@) is Some);
                assert(value_in(all.skip(k as int), kc@) == line_value(all[k as int], kc@));
            }
            return r;
        }
        k = k + 1;
    }
    proof {
        assert(all.skip(k as int) =~= Seq::<Seq<char>>::empty());
    }
    None
}

/// Whether a settings line sets `key`: once its leading spaces are dropped it
/// is no comment, has an `=`, and the part before it, trimmed, equals `key`
/// ignoring ASCII case.
pub open spec fn sets_key(line: Seq<char>, key: Seq<char>) -> bool {
    let t = line.skip(trim_start_count(line) as int);
    let e = first_of(t, '=');
    &&& !(t.len() > 0 && is_comment_start(t[0]))
    &&& e >= 0
    &&& lower(trim(t.take(e))) == lower(key)
}

/// Index of the first line that sets `key`, or -1.
pub open spec fn first_setter(lines: Seq<Seq<char>>, key: Seq<char>) -> int
    decreases lines.len(),
{
    if lines.len() == 0 {
        -1
    } else if sets_key(lines[0], key) {
        0
    } else {
        let r = first_setter(lines.drop_first(), key);
        if r < 0 {
            -1
        } else {
            r + 1
        }
    }
}

pub proof fn lemma_first_setter(lines: Seq<Seq<char>>, key: Seq<char>)
    ensures
        -1 <= first_setter(lines, key) < lines.len(),
        first_setter(lines, key) >= 0 ==> sets_key(lines[first_setter(lines, key)], key),
        forall|j: int|
            0 <= j < lines.len() && (first_setter(lines, key) < 0 || j < first_setter(lines, key))
                ==> !sets_key(#[trigger] lines[j], key),
    decreases lines.len(),
{
    if lines.len() > 0 && !sets_key(lines[0], key) {
        lemma_first_setter(lines.drop_first(), key);
        assert forall|j: int|
            0 <= j < lines.len() && (first_setter(lines, key) < 0 || j < first_setter(lines, key))
                implies !sets_key(#[trigger] lines[j], key) by {
            if j > 0 {
                assert(lines[j] == lines.drop_first()[j - 1]);
            }
        }
    }
}

proof fn lemma_first_setter_is(lines: Seq<Seq<char>>, key: Seq<char>, i: int)
    requires
        -1 <= i < lines.len(),
        i >= 0 ==> sets_key(lines[i], key),
        forall|j: int| 0 <= j < lines.len() && (i < 0 || j < i) ==> !sets_key(#[trigger] lines[j], key),
    ensures
        first_setter(lines, key) == i,
{
    lemma_first_setter(lines, key);
    let f = first_setter(lines, key);
    if f >= 0 && (i < 0 || f < i) {
        assert(!sets_key(lines[f], key));
    }
    if i >= 0 && (f < 0 || i < f) {
        assert(!sets_key(lines[i], key));
    }
}

/// The line `key=value`.
pub open spec fn setting_line(key: Seq<char>, value: Seq<char>) -> Seq<char> {
    key + seq!['='] + value
}

/// The lines with the first one that sets `key` replaced by `key=value`, or
/// that line added at the end when none does.
pub open spec fn updated_lines(lines: Seq<Seq<char>>, key: Seq<char>, value: Seq<char>) -> Seq<Seq<char>> {
    let i = first_setter(lines, key);
    if i >= 0 {
        lines.update(i, setting_line(key, value))
    } else {
        lines.push(setting_line(key, value))
    }
}

/// The lines written out, each followed by `sep`.
pub open spec fn terminated(lines: Seq<Seq<char>>, sep: Seq<char>) -> Seq<char>
    decreases lines.len(),
{
    if lines.len() == 0 {
        Seq::empty()
    } else {
        terminated(lines.drop_last(), sep) + lines.last() + sep
    }
}

/// A settings text with `key` set to `value`: everything else, comments and
/// sections included, is kept line for line.
pub open spec fn with_setting_text(text: Seq<char>, key: Seq<char>, value: Seq<char>, sep: Seq<char>) -> Seq<char> {
    terminated(updated_lines(lines_of(text), key, value), sep)
}

/// Whether `line` sets `key` (see [`sets_key`]).
#[verifier::spinoff_prover]
fn line_sets_key(line: &Vec<char>, key: &Vec<char>) -> (r: bool)
    ensures
        r == sets_key(line@, key@),
{
    let n = line.len();
    let mut i: usize = 0;
    while i < n && char_is_ws(line[i])
        invariant
            i <= n == line@.len(),
            forall|j: int| 0 <= j < i ==> is_ws(#[trigger] line@[j]),
        decreases n - i,
    {
        i = i + 1;
    }
    proof {
        lemma_trim_start_count_is(line@, i as int);
    }
    let t = sub_chars(line, i, n);
    assert(t@ =~= line@.skip(i as int));
    if t.len() > 0 && (t[0] == ';' || t[0] == '#' || t[0] == '[') {
        return false;
    }
    let e = match find_char(&t, '=') {
        Some(e) => e,
        None => {
            return false;
        },
    };
    proof {
        lemma_first_of(t@, '=');
    }
    let k = sub_chars(&t, 0, e);
    assert(k@ =~= t@.take(e as int));
    let (klo, khi) = trim_bounds(&k);
    let kt = sub_chars(&k, klo, khi);
    same_ignoring_case(&kt, key)
}

/// Set `key=value` in a settings text, updating the first line that sets it
/// (or adding one at the end) and leaving every other line as it was. Lines
/// are written back each followed by `sep`.
#[verifier::spinoff_prover]
pub fn with_setting(text: &str, key: &str, value: &str, sep: &str) -> (r: String)
    ensures
        r@ == with_setting_text(text@, key@, value@, sep@),
{
    let cs = chars_of(text);
    let kc = chars_of(key);
    let spans = line_spans(&cs);
    let ghost all = lines_of(cs@);
    let mut found: Option<usize> = None;
    let mut k: usize = 0;
    while k < spans.len()
        invariant_except_break
            found is None,
        invariant
            kc@ == key@,
            all == lines_of(cs@),
            spans_fit(spans@, cs@.len() as int),
            span_texts(cs@, spans@) == all,
            k <= spans@.len(),
            forall|j: int| 0 <= j < k ==> !sets_key(#[trigger] all[j], key@),
        ensures
            found is None ==> forall|j: int| 0 <= j < all.len() ==> !sets_key(#[trigger] all[j], key@),
            found matches Some(i) ==> i < all.len() && sets_key(all[i as int], key@) && forall|j: int|
                0 <= j < i ==> !sets_key(#[trigger] all[j], key@),
        decreases spans@.len() - k,
    {
        let (lo, hi) = spans[k];
        proof {
            assert(spans@[k as int].0 <= spans@[k as int].1 <= cs@.len());
            assert(all[k as int] == cs@.subrange(lo as int, hi as int));
        }
        let line = sub_chars(&cs, lo, hi);
        if line_sets_key(&line, &kc) {
            found = Some(k);
            break;
        }
        k = k + 1;
    }
    let ghost upd = updated_lines(all, key@, value@);
    proof {
        match found {
            Some(i) => lemma_first_setter_is(all, key@, i as int),
            None => lemma_first_setter_is(all, key@, -1),
        }
        lemma_first_setter(all, key@);
        reveal_strlit("=");
        assert(upd.take(0) =~= Seq::<Seq<char>>::empty());
        assert forall|q: int| 0 <= q < all.len() implies #[trigger] upd[q] == if found == Some(q as usize) {
            setting_line(key@, value@)
        } else {
            all[q]
        } by {
            match found {
                Some(i) => {
                    assert(first_setter(all, key@) == i);
                    assert(upd == all.update(i as int, setting_line(key@, value@)));
                    if q == i {
                        assert(upd[q] == setting_line(key@, value@));
                    } else {
                        assert(found != Some(q as usize));
                        assert(upd[q] == all[q]);
                    }
                },
                None => {
                    assert(first_setter(all, key@) == -1);
                    assert(upd == all.push(setting_line(key@, value@)));
                    assert(upd[q] == all[q]);
                },
            }
        }
    }
    let mut out = String::new();
    let mut j: usize = 0;
    while j < spans.len()
        invariant
            kc@ == key@,
            all == lines_of(cs@),
            cs@ == text@,
            spans_fit(spans@, cs@.len() as int),
            span_texts(cs@, spans@) == all,
            upd == updated_lines(all, key@, value@),
            found matches Some(i) ==> first_setter(all, key@) == i,
            found is None ==> first_setter(all, key@) == -1,
            j <= spans@.len(),
            upd.len() >= all.len(),
            forall|q: int|
                0 <= q < all.len() ==> #[trigger] upd[q] == if found == Some(q as usize) {
                    setting_line(key@, value@)
                } else {
                    all[q]
                },
            out@ == terminated(upd.take(j as int), sep@),
            "="@ == seq!['='],
        decreases spans@.len() - j,
    {
        let (lo, hi) = spans[j];
        proof {
            assert(spans@[j as int].0 <= spans@[j as int].1 <= cs@.len());
            assert(all[j as int] == cs@.subrange(lo as int, hi as int));
            assert(upd.take(j + 1).drop_last() =~= upd.take(j as int));
        }
        if found == Some(j) {
            out.append(key);
            out.append("=");
            out.append(value);
        } else {
            out.append(text.substring_char(lo, hi));
        }
        out.append(sep);
        j = j + 1;
        proof {
            assert(out@ =~= terminated(upd.take(j as int), sep@));
        }
    }
    if found.is_none() {
        out.append(key);
        out.append("=");
        out.append(value);
        out.append(sep);
        proof {
            assert(upd.take(j as int) =~= all);
            assert(upd.drop_last() =~= all);
            assert(out@ =~= terminated(upd, sep@));
        }
    } else {
        proof {
            assert(upd.take(j as int) =~= upd);
        }
    }
    out
}

/// A decimal digit.
pub open spec fn is_digit(c: char) -> bool {
    '0' <= c <= '9'
}

/// The number the decimal digits `s` spell.
pub open spec fn digits_value(s: Seq<char>) -> nat
    decreases s.len(),
{
    if s.len() == 0 {
        0
    } else {
        digits_value(s.drop_last()) * 10 + ((s.last() as int) - 48) as nat
    }
}

/// The digits part of an unsigned number: `s` without a leading `+`.
pub open spec fn unsigned_digits(s: Seq<char>) -> Seq<char> {
    if s.len() > 0 && s[0] == '+' {
        s.drop_first()
    } else {
        s
    }
}

/// Every character is a decimal digit.
pub open spec fn all_digits(d: Seq<char>) -> bool {
    forall|i: int| 0 <= i < d.len() ==> is_digit(#[trigger] d[i])
}

/// What parsing `s` as an unsigned integer of at most `max` gives: an optional
/// `+`, then at least one digit and nothing else, whose value does not exceed
/// `max`.
pub open spec fn unsigned_of(s: Seq<char>, max: nat) -> Option<nat> {
    let d = unsigned_digits(s);
    if d.len() > 0 && all_digits(d) && digits_value(d) <= max {
        Some(digits_value(d))
    } else {
        None
    }
}

/// Parse `s` as an unsigned integer of at most `max`, as the standard
/// integer parsers do for an unsigned type whose largest value is `max`.
#[verifier::spinoff_prover]
pub fn parse_unsigned(s: &str, max: u32) -> (r: Option<u32>)
    ensures
        r is None <==> unsigned_of(s@, max as nat) is None,
        r matches Some(v) ==> unsigned_of(s@, max as nat) == Some(v as nat),
{
    let cs = chars_of(s);
    let start: usize = if cs.len() > 0 && cs[0] == '+' { 1 } else { 0 };
    let ghost d = unsigned_digits(s@);
    assert(d =~= cs@.skip(start as int));
    if start == cs.len() {
        return None;
    }
    let cap: u64 = max as u64 + 1;
    let mut acc: u64 = 0;
    let mut i: usize = start;
    while i < cs.len()
        invariant
            cs@ == s@,
            d == cs@.skip(start as int),
            d == unsigned_digits(s@),
            start <= i <= cs@.len(),
            cap == max + 1,
            forall|j: int| 0 <= j < i - start ==> is_digit(#[trigger] d[j]),
            acc == if digits_value(d.take(i - start)) < cap {
                digits_value(d.take(i - start))
            } else {
                cap as nat
            },
        decreases cs@.len() - i,
    {
        let c = cs[i];
        if !('0' <= c && c <= '9') {
            proof {
                assert(d[i - start] == cs@[i as int]);
                assert(!is_digit(d[i - start]));
                assert(!all_digits(d));
            }
            return None;
        }
        let dv = (c as u32 - 48) as u64;
        proof {
            assert(d.take(i + 1 - start).drop_last() =~= d.take(i - start));
            assert(d.take(i + 1 - start).last() == c);
        }
        let next = acc * 10 + dv;
        acc = if next < cap { next } else { cap };
        i = i + 1;
    }
    proof {
        assert(d.take(i - start) =~= d);
    }
    if acc < cap {
        Some(acc as u32)
    } else {
        None
    }
}

/// A saved zoom: a whole number 1..=6 (anything else is no setting at all).
pub open spec fn scale_of(v: Seq<char>) -> Option<u32> {
    match unsigned_of(v, u32::MAX as nat) {
        Some(n) => if 1 <= n <= 6 {
            Some(n as u32)
        } else {
            None
        },
        None => None,
    }
}

/// Read a saved zoom value (already trimmed), if it is a zoom of 1..=6.
pub fn parse_scale(v: &str) -> (r: Option<u32>)
    ensures
        r == scale_of(v@),
{
    match parse_unsigned(v, u32::MAX) {
        Some(n) => if 1 <= n && n <= 6 {
            Some(n)
        } else {
            None
        },
        None => None,
    }
}

/// The border colour a saved value stands for: a ZX colour 0..=7, or (for a
/// missing, `auto` or any other value) the dominant screen colour.
pub open spec fn border_of(v: Option<Seq<char>>) -> crate::viewer::BorderMode {
    match v {
        Some(s) => match unsigned_of(trim(s), 255) {
            Some(n) => if n <= 7 {
                crate::viewer::BorderMode::Fixed(n as u8)
            } else {
                crate::viewer::BorderMode::Dominant
            },
            None => crate::viewer::BorderMode::Dominant,
        },
        None => crate::viewer::BorderMode::Dominant,
    }
}

/// Read a saved border mode. Missing, `auto` or invalid -> dominant.
pub fn parse_border(v: Option<&str>) -> (r: crate::viewer::BorderMode)
    ensures
        r == border_of(match v {
            Some(s) => Some(s@),
            None => None,
        }),
{
    match v {
        Some(s) => {
            let cs = chars_of(s);
            let (lo, hi) = trim_bounds(&cs);
            let t = s.substring_char(lo, hi);
            match parse_unsigned(t, 255) {
                Some(n) => if n <= 7 {
                    crate::viewer::BorderMode::Fixed(n as u8)
                } else {
                    crate::viewer::BorderMode::Dominant
                },
                None => crate::viewer::BorderMode::Dominant,
            }
        },
        None => crate::viewer::BorderMode::Dominant,
    }
}

/// How a border mode is saved: the colour number, or `auto`.
pub open spec fn border_text(m: crate::viewer::BorderMode) -> Seq<char> {
    match m {
        crate::viewer::BorderMode::Fixed(c) => dec_chars(c as nat),
        crate::viewer::BorderMode::Dominant => "auto"@,
    }
}

/// The saved form of a border mode.
pub fn border_value(m: crate::viewer::BorderMode) -> (r: String)
    ensures
        r@ == border_text(m),
{
    match m {
        crate::viewer::BorderMode::Fixed(c) => dec_string(c as u64),
        crate::viewer::BorderMode::Dominant => String::from_str("auto"),
    }
}

/// Whether a switch setting is on: `1`, `true`, `yes` or `on`, ignoring
/// surrounding whitespace and ASCII case.
pub open spec fn truthy_value(v: Seq<char>) -> bool {
    let n = normalize(v);
    n == "1"@ || n == "true"@ || n == "yes"@ || n == "on"@
}

/// Whether a switch setting is on.
pub fn truthy(v: &str) -> (r: bool)
    ensures
        r == truthy_value(v@),
{
    let n = normalized(v);
    chars_eq(&n, "1") || chars_eq(&n, "true") || chars_eq(&n, "yes") || chars_eq(&n, "on")
}

/// The disk geometry a setting names, through a few friendly aliases,
/// ignoring surrounding whitespace and ASCII case.
pub open spec fn geometry_of(v: Seq<char>) -> Option<DiskType> {
    let n = normalize(v);
    if n == "640k"@ || n == "640"@ || n == "80x2"@ || n == "ds80"@ {
        Some(DiskType::Ds80)
    } else if n == "320k-ds"@ || n == "40x2"@ || n == "ds40"@ {
        Some(DiskType::Ds40)
    } else if n == "320k-ss"@ || n == "80x1"@ || n == "ss80"@ {
        Some(DiskType::Ss80)
    } else if n == "160k"@ || n == "160"@ || n == "40x1"@ || n == "ss40"@ {
        Some(DiskType::Ss40)
    } else {
        None
    }
}

/// Parse a geometry setting value into a [`DiskType`]; unknown values give
/// `None` (the caller falls back to the default).
pub fn parse_geometry(v: &str) -> (r: Option<DiskType>)
    ensures
        r == geometry_of(v@),
{
    let n = normalized(v);
    if chars_eq(&n, "640k") || chars_eq(&n, "640") || chars_eq(&n, "80x2") || chars_eq(&n, "ds80") {
        Some(DiskType::Ds80)
    } else if chars_eq(&n, "320k-ds") || chars_eq(&n, "40x2") || chars_eq(&n, "ds40") {
        Some(DiskType::Ds40)
    } else if chars_eq(&n, "320k-ss") || chars_eq(&n, "80x1") || chars_eq(&n, "ss80") {
        Some(DiskType::Ss80)
    } else if chars_eq(&n, "160k") || chars_eq(&n, "160") || chars_eq(&n, "40x1") || chars_eq(&n, "ss40") {
        Some(DiskType::Ss40)
    } else {
        None
    }
}

} // verus!
