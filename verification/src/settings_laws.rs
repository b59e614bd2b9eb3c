//! What writing a setting does to the settings text, seen by reading it back:
//! the setting reads back as written, and every other line stays as it was.
use vstd::prelude::*;
use crate::settings::{
    first_of, first_setter, is_comment_start, lemma_first_of, line_body, line_value, lines_of,
    sets_key, setting_line, setting_value, terminated, updated_lines, value_in, with_setting_text,
};
use crate::text::{
    is_ws, lemma_trim_end_len_facts, lemma_trim_end_len_is, lemma_trim_start_count_facts,
    lemma_trim_start_count_is, trim, trim_end, trim_end_len, trim_start_count,
};

verus! {

/// A key the settings text can hold: not empty, no whitespace around it, not
/// opening like a comment or section, and without `=` or line breaks.
pub open spec fn plain_key(k: Seq<char>) -> bool {
    &&& k.len() > 0
    &&& !is_ws(k[0])
    &&& !is_ws(k.last())
    &&& !is_comment_start(k[0])
    &&& forall|i: int| 0 <= i < k.len() ==> #[trigger] k[i] != '=' && k[i] != '\n' && k[i] != '\r'
}

/// A value the settings text can hold on one line: no line breaks.
pub open spec fn plain_value(v: Seq<char>) -> bool {
    forall|i: int| 0 <= i < v.len() ==> #[trigger] v[i] != '\n' && v[i] != '\r'
}

/// The lines the text written with line ending `sep` reads back as: with a
/// bare `\n` ending, a line that itself ends in `\r` loses that `\r`.
pub open spec fn reread(lines: Seq<Seq<char>>, sep: Seq<char>) -> Seq<Seq<char>> {
    if sep == seq!['\n'] {
        lines.map_values(|l: Seq<char>| line_body(l))
    } else {
        lines
    }
}

/// A line break free text.
pub open spec fn one_line(l: Seq<char>) -> bool {
    forall|i: int| 0 <= i < l.len() ==> #[trigger] l[i] != '\n'
}

proof fn lemma_lines_are_single(s: Seq<char>)
    ensures
        forall|i: int| 0 <= i < lines_of(s).len() ==> one_line(#[trigger] lines_of(s)[i]),
    decreases s.len(),
{
    if s.len() > 0 {
        let i = first_of(s, '\n');
        lemma_first_of(s, '\n');
        if i >= 0 {
            lemma_lines_are_single(s.skip(i + 1));
            let head = line_body(s.take(i));
            assert(one_line(head)) by {
                assert forall|j: int| 0 <= j < head.len() implies head[j] != '\n' by {
                    assert(head[j] == s[j]);
                }
            }
            assert forall|q: int| 0 <= q < lines_of(s).len() implies one_line(#[trigger] lines_of(s)[q]) by {
                if q > 0 {
                    assert(lines_of(s)[q] == lines_of(s.skip(i + 1))[q - 1]);
                }
            }
        }
    }
}

proof fn lemma_terminated_front(u: Seq<Seq<char>>, sep: Seq<char>)
    requires
        u.len() > 0,
    ensures
        terminated(u, sep) == u[0] + sep + terminated(u.drop_first(), sep),
    decreases u.len(),
{
    if u.len() > 1 {
        lemma_terminated_front(u.drop_last(), sep);
        assert(u.drop_last().drop_first() =~= u.drop_first().drop_last());
        assert(u.drop_last()[0] == u[0]);
        assert(u.drop_first().last() == u.last());
    } else {
        assert(u.drop_last() =~= Seq::<Seq<char>>::empty());
        assert(u.drop_first() =~= Seq::<Seq<char>>::empty());
    }
}

proof fn lemma_lines_of_line(l: Seq<char>, sep: Seq<char>, rest: Seq<char>)
    requires
        one_line(l),
        sep == seq!['\n'] || sep == seq!['\r', '\n'],
    ensures
        lines_of(l + sep + rest) == seq![
            if sep == seq!['\n'] {
                line_body(l)
            } else {
                l
            },
        ] + lines_of(rest),
{
    let s = l + sep + rest;
    let i = l.len() + sep.len() - 1;
    assert forall|j: int| 0 <= j < s.len() && j < i implies s[j] != '\n' by {
        if j < l.len() {
            assert(s[j] == l[j]);
        }
    }
    assert(s[i] == '\n');
    crate::settings::lemma_first_of_is(s, '\n', i);
    assert(s.skip(i + 1) =~= rest);
    if sep == seq!['\n'] {
        assert(s.take(i) =~= l);
    } else {
        assert(s.take(i) =~= l.push('\r'));
        assert(line_body(l.push('\r')) =~= l);
    }
}

/// Written out with line ending `sep`, lines without line breaks read back as
/// themselves (with `\n`, less a `\r` they end in).
pub proof fn lemma_written_lines_read_back(u: Seq<Seq<char>>, sep: Seq<char>)
    requires
        forall|i: int| 0 <= i < u.len() ==> one_line(#[trigger] u[i]),
        sep == seq!['\n'] || sep == seq!['\r', '\n'],
    ensures
        lines_of(terminated(u, sep)) == reread(u, sep),
    decreases u.len(),
{
    if u.len() == 0 {
        assert(reread(u, sep) =~= Seq::<Seq<char>>::empty());
    } else {
        lemma_terminated_front(u, sep);
        assert forall|i: int| 0 <= i < u.drop_first().len() implies one_line(#[trigger] u.drop_first()[i]) by {
            assert(u.drop_first()[i] == u[i + 1]);
        }
        lemma_written_lines_read_back(u.drop_first(), sep);
        assert(one_line(u[0]));
        lemma_lines_of_line(u[0], sep, terminated(u.drop_first(), sep));
        assert(u[0] + sep + terminated(u.drop_first(), sep) == terminated(u, sep));
        if sep == seq!['\n'] {
            assert(reread(u, sep) =~= seq![line_body(u[0])] + reread(u.drop_first(), sep));
        } else {
            assert(reread(u, sep) =~= seq![u[0]] + reread(u.drop_first(), sep));
        }
    }
}

/// A setting line reads back as the key's value, trimmed.
proof fn lemma_setting_line_value(k: Seq<char>, v: Seq<char>)
    requires
        plain_key(k),
        plain_value(v),
    ensures
        line_value(setting_line(k, v), k) == Some(trim(v)),
        line_body(setting_line(k, v)) == setting_line(k, v),
        one_line(setting_line(k, v)),
{
    let l = setting_line(k, v);
    let p: int = k.len() as int + 1;
    assert(l[p - 1] == '=');
    assert(l.take(p) =~= k.push('='));
    assert(l.skip(p) =~= v);
    // trailing whitespace of the line is that of the value
    lemma_trim_end_len_facts(v);
    let n: int = p + trim_end_len(v);
    assert forall|i: int| n <= i < l.len() implies is_ws(#[trigger] l[i]) by {
        assert(l[i] == v[i - p]);
    }
    if trim_end_len(v) > 0 {
        assert(l[n - 1] == v[trim_end_len(v) - 1]);
    }
    lemma_trim_end_len_is(l, n);
    let te = trim_end(l);
    assert(te[0] == k[0]);
    lemma_trim_start_count_is(te, 0);
    let t = trim(l);
    assert(t =~= te);
    // the first `=` is the one after the key
    assert forall|j: int| 0 <= j < t.len() && j < k.len() implies t[j] != '=' by {
        assert(t[j] == k[j]);
    }
    crate::settings::lemma_first_of_is(t, '=', k.len() as int);
    // the key part is the key
    assert(t.take(k.len() as int) =~= k);
    lemma_trim_end_len_facts(k);
    lemma_trim_end_len_is(k, k.len() as int);
    assert(trim_end(k) =~= k);
    lemma_trim_start_count_is(k, 0);
    assert(trim(k) =~= k);
    // the value part, trimmed, is the value trimmed
    assert(t.skip(p) =~= trim_end(v));
    let tv = trim_end(v);
    lemma_trim_end_len_facts(tv);
    assert forall|i: int| trim_end_len(v) <= i < tv.len() implies is_ws(#[trigger] tv[i]) by {}
    if trim_end_len(v) > 0 {
        assert(tv[trim_end_len(v) - 1] == v[trim_end_len(v) - 1]);
    }
    lemma_trim_end_len_is(tv, trim_end_len(v) as int);
    assert(trim_end(tv) =~= tv);
    assert(trim(tv) =~= trim(v));
    assert forall|i: int| 0 <= i < l.len() implies l[i] != '\n' by {
        if i < k.len() {
            assert(l[i] == k[i]);
        } else if i > k.len() {
            assert(l[i] == v[i - p]);
        }
    }
    assert(l.last() != '\r') by {
        if v.len() > 0 {
            assert(l.last() == v.last());
        }
    }
}

/// A line that gives `k` a value is a line that sets `k`.
proof fn lemma_value_means_sets(l: Seq<char>, k: Seq<char>)
    requires
        line_value(l, k) is Some,
    ensures
        sets_key(l, k),
{
    let n = trim_end_len(l);
    lemma_trim_end_len_facts(l);
    let te = trim_end(l);
    lemma_trim_start_count_facts(te);
    let q = trim_start_count(te);
    let t = trim(l);
    assert(t =~= l.subrange(q as int, n as int));
    // leading whitespace stops at the same place in the whole line
    assert forall|i: int| 0 <= i < q implies is_ws(#[trigger] l[i]) by {
        assert(l[i] == te[i]);
    }
    assert(l[q as int] == te[q as int]);
    lemma_trim_start_count_is(l, q as int);
    let t2 = l.skip(q as int);
    let e = first_of(t, '=');
    lemma_first_of(t, '=');
    assert forall|j: int| 0 <= j < t2.len() && j < e implies t2[j] != '=' by {
        assert(t2[j] == t[j]);
    }
    assert(t2[e] == t[e]);
    crate::settings::lemma_first_of_is(t2, '=', e);
    assert(t2.take(e) =~= t.take(e));
    assert(t2[0] == t[0]);
}

/// A line whose body (without a trailing `\r`) gives `k` a value sets `k`.
proof fn lemma_body_value_means_sets(l: Seq<char>, k: Seq<char>)
    requires
        line_value(line_body(l), k) is Some,
    ensures
        sets_key(l, k),
{
    let b = line_body(l);
    lemma_value_means_sets(b, k);
    if b != l {
        assert(l =~= b.push('\r'));
        lemma_trim_start_count_facts(b);
        let p = trim_start_count(b);
        let tb = b.skip(p as int);
        let e = first_of(tb, '=');
        lemma_first_of(tb, '=');
        assert(p < b.len());
        assert forall|i: int| 0 <= i < p implies is_ws(#[trigger] l[i]) by {
            assert(l[i] == b[i]);
        }
        assert(l[p as int] == b[p as int]);
        lemma_trim_start_count_is(l, p as int);
        let tl = l.skip(p as int);
        assert(tl =~= tb.push('\r'));
        assert forall|j: int| 0 <= j < tl.len() && j < e implies tl[j] != '=' by {
            assert(tl[j] == tb[j]);
        }
        assert(tl[e] == tb[e]);
        crate::settings::lemma_first_of_is(tl, '=', e);
        assert(tl.take(e) =~= tb.take(e));
        assert(tl[0] == tb[0]);
    }
}

proof fn lemma_value_in_at(s: Seq<Seq<char>>, k: Seq<char>, i: int)
    requires
        0 <= i < s.len(),
        forall|j: int| 0 <= j < i ==> line_value(#[trigger] s[j], k) is None,
        line_value(s[i], k) is Some,
    ensures
        value_in(s, k) == line_value(s[i], k),
    decreases i,
{
    if i > 0 {
        assert(line_value(s[0], k) is None);
        assert forall|j: int| 0 <= j < i - 1 implies line_value(#[trigger] s.drop_first()[j], k) is None by {
            assert(s.drop_first()[j] == s[j + 1]);
        }
        assert(s.drop_first()[i - 1] == s[i]);
        lemma_value_in_at(s.drop_first(), k, i - 1);
    }
}

/// A setting written into any settings text reads back as the value written
/// (trimmed, as every value is read), whichever line ending the text is
/// written with.
pub proof fn lemma_setting_reads_back(text: Seq<char>, key: Seq<char>, value: Seq<char>, sep: Seq<char>)
    requires
        plain_key(key),
        plain_value(value),
        sep == seq!['\n'] || sep == seq!['\r', '\n'],
    ensures
        setting_value(with_setting_text(text, key, value, sep), key) == Some(trim(value)),
{
    let ls = lines_of(text);
    let u = updated_lines(ls, key, value);
    let nl = setting_line(key, value);
    lemma_lines_are_single(text);
    lemma_setting_line_value(key, value);
    crate::settings::lemma_first_setter(ls, key);
    let i = first_setter(ls, key);
    let at = if i >= 0 {
        i
    } else {
        ls.len() as int
    };
    assert(u[at] == nl);
    assert forall|q: int| 0 <= q < u.len() implies one_line(#[trigger] u[q]) by {
        if q != at {
            assert(u[q] == ls[q]);
        }
    }
    lemma_written_lines_read_back(u, sep);
    let r = reread(u, sep);
    assert(r[at] == nl);
    assert forall|j: int| 0 <= j < at implies line_value(#[trigger] r[j], key) is None by {
        assert(u[j] == ls[j]);
        assert(!sets_key(ls[j], key));
        if line_value(r[j], key) is Some {
            if sep == seq!['\n'] {
                lemma_body_value_means_sets(ls[j], key);
            } else {
                lemma_value_means_sets(ls[j], key);
            }
        }
    }
    lemma_value_in_at(r, key, at);
}

/// Writing a setting keeps every other line of the settings text as it was:
/// read back, the text's lines are its old lines with the setting's line
/// replaced (or added at the end).
pub proof fn lemma_setting_keeps_other_lines(text: Seq<char>, key: Seq<char>, value: Seq<char>, sep: Seq<char>)
    requires
        plain_key(key),
        plain_value(value),
        sep == seq!['\n'] || sep == seq!['\r', '\n'],
    ensures
        lines_of(with_setting_text(text, key, value, sep)) == reread(updated_lines(lines_of(text), key, value), sep),
{
    let ls = lines_of(text);
    let u = updated_lines(ls, key, value);
    lemma_lines_are_single(text);
    lemma_setting_line_value(key, value);
    crate::settings::lemma_first_setter(ls, key);
    assert forall|q: int| 0 <= q < u.len() implies one_line(#[trigger] u[q]) by {
        if u[q] != setting_line(key, value) {
            assert(u[q] == ls[q]);
        }
    }
    lemma_written_lines_read_back(u, sep);
}

} // verus!
