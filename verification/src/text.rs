//! Text helpers shared by the name, setting and label code: ASCII byte strings
//! as `char` sequences, Unicode whitespace trimming, and ASCII case folding.
use vstd::prelude::*;
use vstd::string::*;
use vstd::utf8::*;

verus! {

/// The `char`s of a byte string read one byte per character.
pub open spec fn ascii_chars(bs: Seq<u8>) -> Seq<char> {
    bs.map_values(|b: u8| b as char)
}

/// Every byte is a 7-bit ASCII code.
pub open spec fn is_ascii_bytes(bs: Seq<u8>) -> bool {
    forall|i: int| 0 <= i < bs.len() ==> #[trigger] bs[i] < 0x80
}

/// Characters with the Unicode `White_Space` property (what `char::is_whitespace`
/// and `str::trim` go by).
pub open spec fn is_ws(c: char) -> bool {
    let u = c as u32;
    ||| 0x09 <= u <= 0x0d
    ||| u == 0x20
    ||| u == 0x85
    ||| u == 0xa0
    ||| u == 0x1680
    ||| 0x2000 <= u <= 0x200a
    ||| u == 0x2028
    ||| u == 0x2029
    ||| u == 0x202f
    ||| u == 0x205f
    ||| u == 0x3000
}

/// Length of `s` once trailing whitespace is removed.
pub open spec fn trim_end_len(s: Seq<char>) -> nat
    decreases s.len(),
{
    if s.len() > 0 && is_ws(s.last()) {
        trim_end_len(s.drop_last())
    } else {
        s.len()
    }
}

/// `s` without its trailing whitespace.
pub open spec fn trim_end(s: Seq<char>) -> Seq<char> {
    s.take(trim_end_len(s) as int)
}

/// Number of leading whitespace characters of `s`.
pub open spec fn trim_start_count(s: Seq<char>) -> nat
    decreases s.len(),
{
    if s.len() > 0 && is_ws(s[0]) {
        1 + trim_start_count(s.drop_first())
    } else {
        0
    }
}

/// `s` without leading and trailing whitespace.
pub open spec fn trim(s: Seq<char>) -> Seq<char> {
    let t = trim_end(s);
    t.skip(trim_start_count(t) as int)
}

/// ASCII lower case of one character; every other character is unchanged.
pub open spec fn lower_char(c: char) -> char {
    if 'A' <= c <= 'Z' {
        ((c as u32) + 32) as char
    } else {
        c
    }
}

/// ASCII lower case of a character sequence.
pub open spec fn lower(s: Seq<char>) -> Seq<char> {
    s.map_values(|c: char| lower_char(c))
}

/// The settings value `s` as it is compared: trimmed and ASCII-lowercased.
pub open spec fn normalize(s: Seq<char>) -> Seq<char> {
    lower(trim(s))
}

/// If the trailing characters from `n` on are whitespace and the one before is
/// not, then `n` is where trimming stops.
pub proof fn lemma_trim_end_len_is(s: Seq<char>, n: int)
    requires
        0 <= n <= s.len(),
        forall|i: int| n <= i < s.len() ==> is_ws(#[trigger] s[i]),
        n > 0 ==> !is_ws(s[n - 1]),
    ensures
        trim_end_len(s) == n,
    decreases s.len(),
{
    if s.len() > n {
        assert(is_ws(s[s.len() - 1]));
        lemma_trim_end_len_is(s.drop_last(), n);
    }
}

pub proof fn lemma_trim_start_count_is(s: Seq<char>, n: int)
    requires
        0 <= n <= s.len(),
        forall|i: int| 0 <= i < n ==> is_ws(#[trigger] s[i]),
        n < s.len() ==> !is_ws(s[n]),
    ensures
        trim_start_count(s) == n,
    decreases s.len(),
{
    if n > 0 {
        assert(is_ws(s[0]));
        assert forall|i: int| 0 <= i < n - 1 implies is_ws(#[trigger] s.drop_first()[i]) by {
            assert(s.drop_first()[i] == s[i + 1]);
        }
        lemma_trim_start_count_is(s.drop_first(), n - 1);
    }
}

/// Where leading-whitespace trimming stops: everything before is whitespace,
/// the character there (if any) is not.
pub proof fn lemma_trim_start_count_facts(s: Seq<char>)
    ensures
        trim_start_count(s) <= s.len(),
        forall|i: int| 0 <= i < trim_start_count(s) ==> is_ws(#[trigger] s[i]),
        trim_start_count(s) < s.len() ==> !is_ws(s[trim_start_count(s) as int]),
    decreases s.len(),
{
    if s.len() > 0 && is_ws(s[0]) {
        lemma_trim_start_count_facts(s.drop_first());
        assert forall|i: int| 0 <= i < trim_start_count(s) implies is_ws(#[trigger] s[i]) by {
            if i > 0 {
                assert(s[i] == s.drop_first()[i - 1]);
            }
        }
        if trim_start_count(s) < s.len() {
            assert(s[trim_start_count(s) as int] == s.drop_first()[trim_start_count(s.drop_first()) as int]);
        }
    }
}

/// Where trailing-whitespace trimming stops: everything from there on is
/// whitespace, the character before (if any) is not.
pub proof fn lemma_trim_end_len_facts(s: Seq<char>)
    ensures
        trim_end_len(s) <= s.len(),
        forall|i: int| trim_end_len(s) <= i < s.len() ==> is_ws(#[trigger] s[i]),
        trim_end_len(s) > 0 ==> !is_ws(s[trim_end_len(s) - 1]),
    decreases s.len(),
{
    if s.len() > 0 && is_ws(s.last()) {
        lemma_trim_end_len_facts(s.drop_last());
        assert forall|i: int| trim_end_len(s) <= i < s.len() implies is_ws(#[trigger] s[i]) by {
            if i < s.len() - 1 {
                assert(s[i] == s.drop_last()[i]);
            }
        }
    }
}

/// Exact UTF-8 decoding of ASCII bytes gives one `char` per byte.
pub proof fn lemma_ascii_decode(bs: Seq<u8>)
    requires
        is_ascii_bytes(bs),
    ensures
        valid_utf8(bs),
        decode_utf8(bs) == ascii_chars(bs),
    decreases bs.len(),
{
    if bs.len() > 0 {
        let rest = bs.subrange(1, bs.len() as int);
        assert(is_ascii_bytes(rest)) by {
            assert forall|i: int| 0 <= i < rest.len() implies #[trigger] rest[i] < 0x80 by {
                assert(rest[i] == bs[i + 1]);
            }
        }
        lemma_ascii_decode(rest);
        let b = bs[0];
        assert(b < 0x80);
        assert((b & 0x7f) == b) by (bit_vector)
            requires
                b < 0x80,
        ;
        assert(pop_first_scalar(bs) == rest);
        assert(valid_first_scalar(bs));
        assert(decode_utf8(bs) =~= ascii_chars(bs));
    }
}

/// What `String::from_utf8_lossy` gives for `bytes`.
pub uninterp spec fn spec_utf8_lossy(bytes: Seq<u8>) -> Seq<char>;

/// `String::from_utf8_lossy`, made owned. Claimed: the result depends on the
/// bytes alone, and for valid UTF-8 it is exactly the decoded text (std
/// documents that only invalid sequences are replaced). What the replacement
/// of invalid sequences looks like is left unsaid.
#[verifier::external_body]
pub(crate) fn utf8_lossy(bytes: &[u8]) -> (s: String)
    ensures
        s@ == spec_utf8_lossy(bytes@),
        valid_utf8(bytes@) ==> s@ == decode_utf8(bytes@),
{
    String::from_utf8_lossy(bytes).into_owned()
}

/// An ASCII byte string as a `String`.
pub fn ascii_string(bytes: &Vec<u8>) -> (s: String)
    requires
        is_ascii_bytes(bytes@),
    ensures
        s@ == ascii_chars(bytes@),
{
    proof {
        lemma_ascii_decode(bytes@);
    }
    utf8_lossy(bytes.as_slice())
}

/// The characters of `s`, one per element.
pub fn chars_of(s: &str) -> (v: Vec<char>)
    ensures
        v@ == s@,
{
    let n = s.unicode_len();
    let mut v: Vec<char> = Vec::new();
    let mut i: usize = 0;
    while i < n
        invariant
            n == s@.len(),
            i <= n,
            v@ == s@.take(i as int),
        decreases n - i,
    {
        let c = s.get_char(i);
        v.push(c);
        i = i + 1;
        assert(v@ =~= s@.take(i as int));
    }
    assert(v@ =~= s@);
    v
}

/// `char::is_whitespace`, over the `White_Space` set above.
pub fn char_is_ws(c: char) -> (b: bool)
    ensures
        b == is_ws(c),
{
    let u = c as u32;
    (0x09 <= u && u <= 0x0d) || u == 0x20 || u == 0x85 || u == 0xa0 || u == 0x1680 || (0x2000
        <= u && u <= 0x200a) || u == 0x2028 || u == 0x2029 || u == 0x202f || u == 0x205f || u
        == 0x3000
}

/// ASCII lower case of one character.
pub fn char_lower(c: char) -> (r: char)
    ensures
        r == lower_char(c),
{
    if 'A' <= c && c <= 'Z' {
        ((c as u8) + 32) as char
    } else {
        c
    }
}

/// Bounds `(lo, hi)` of `s` once leading and trailing whitespace is removed.
pub fn trim_bounds(s: &Vec<char>) -> (r: (usize, usize))
    ensures
        r.0 <= r.1 <= s@.len(),
        s@.subrange(r.0 as int, r.1 as int) == trim(s@),
        r.1 == trim_end_len(s@),
{
    let mut hi: usize = s.len();
    while hi > 0 && char_is_ws(s[hi - 1])
        invariant
            hi <= s@.len(),
            forall|i: int| hi <= i < s@.len() ==> is_ws(#[trigger] s@[i]),
        decreases hi,
    {
        hi = hi - 1;
    }
    proof {
        lemma_trim_end_len_is(s@, hi as int);
    }
    let ghost t = trim_end(s@);
    let mut lo: usize = 0;
    while lo < hi && char_is_ws(s[lo])
        invariant
            lo <= hi,
            hi <= s@.len(),
            hi == trim_end_len(s@),
            t == s@.take(hi as int),
            forall|i: int| 0 <= i < lo ==> is_ws(#[trigger] s@[i]),
        decreases hi - lo,
    {
        lo = lo + 1;
    }
    proof {
        assert forall|i: int| 0 <= i < lo implies is_ws(#[trigger] t[i]) by {
            assert(t[i] == s@[i]);
        }
        lemma_trim_start_count_is(t, lo as int);
        assert(s@.subrange(lo as int, hi as int) =~= t.skip(lo as int));
    }
    (lo, hi)
}

/// The settings value `s`, trimmed and ASCII-lowercased.
pub fn normalized(s: &str) -> (v: Vec<char>)
    ensures
        v@ == normalize(s@),
{
    let cs = chars_of(s);
    let (lo, hi) = trim_bounds(&cs);
    let ghost t = trim(s@);
    let mut v: Vec<char> = Vec::new();
    let mut i: usize = lo;
    while i < hi
        invariant
            lo <= i <= hi <= cs@.len(),
            cs@.subrange(lo as int, hi as int) == t,
            v@ == lower(t.take(i - lo)),
        decreases hi - i,
    {
        let c = char_lower(cs[i]);
        v.push(c);
        proof {
            assert(t[i - lo] == cs@[i as int]);
        }
        i = i + 1;
        assert(v@ =~= lower(t.take(i - lo)));
    }
    assert(t.take(hi - lo) =~= t);
    v
}

/// The characters of `s`, ASCII-lowercased.
pub fn lowered(s: &str) -> (v: Vec<char>)
    ensures
        v@ == lower(s@),
{
    let cs = chars_of(s);
    let mut v: Vec<char> = Vec::new();
    let mut i: usize = 0;
    while i < cs.len()
        invariant
            i <= cs@.len(),
            cs@ == s@,
            v@ == lower(s@).take(i as int),
        decreases cs@.len() - i,
    {
        v.push(char_lower(cs[i]));
        i = i + 1;
        assert(v@ =~= lower(s@).take(i as int));
    }
    assert(lower(s@).take(i as int) =~= lower(s@));
    v
}

/// Whether the characters in `v` are exactly those of `word`.
pub fn chars_eq(v: &Vec<char>, word: &str) -> (b: bool)
    ensures
        b == (v@ == word@),
{
    let n = word.unicode_len();
    if v.len() != n {
        return false;
    }
    let mut i: usize = 0;
    while i < n
        invariant
            n == word@.len(),
            n == v@.len(),
            i <= n,
            forall|j: int| 0 <= j < i ==> v@[j] == word@[j],
        decreases n - i,
    {
        if v[i] != word.get_char(i) {
            return false;
        }
        i = i + 1;
    }
    assert(v@ =~= word@);
    true
}

/// The decimal digit character for `d` (0..10).
pub open spec fn digit_char(d: int) -> char {
    (48 + d) as char
}

/// Decimal representation of `n`, without leading zeros ("0" for zero).
pub open spec fn dec_chars(n: nat) -> Seq<char>
    decreases n,
{
    if n < 10 {
        seq![digit_char(n as int)]
    } else {
        dec_chars(n / 10).push(digit_char((n % 10) as int))
    }
}

/// The one-character string of decimal digit `d`.
fn digit_str(d: u64) -> (s: &'static str)
    requires
        d < 10,
    ensures
        s@ == seq![digit_char(d as int)],
{
    proof {
        reveal_strlit("0");
        reveal_strlit("1");
        reveal_strlit("2");
        reveal_strlit("3");
        reveal_strlit("4");
        reveal_strlit("5");
        reveal_strlit("6");
        reveal_strlit("7");
        reveal_strlit("8");
        reveal_strlit("9");
    }
    let s = if d == 0 {
        "0"
    } else if d == 1 {
        "1"
    } else if d == 2 {
        "2"
    } else if d == 3 {
        "3"
    } else if d == 4 {
        "4"
    } else if d == 5 {
        "5"
    } else if d == 6 {
        "6"
    } else if d == 7 {
        "7"
    } else if d == 8 {
        "8"
    } else {
        "9"
    };
    assert(s@ =~= seq![digit_char(d as int)]);
    s
}

/// `n` written in decimal.
pub fn dec_string(n: u64) -> (s: String)
    ensures
        s@ == dec_chars(n as nat),
    decreases n,
{
    if n < 10 {
        String::from_str(digit_str(n))
    } else {
        let mut s = dec_string(n / 10);
        s.append(digit_str(n % 10));
        proof {
            assert(dec_chars(n as nat) == dec_chars((n / 10) as nat).push(digit_char((n % 10) as int)));
            assert(s@ =~= dec_chars(n as nat));
        }
        s
    }
}

} // verus!
