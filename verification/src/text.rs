//! Character-level text operations on `Seq<char>` models of strings.
use vstd::prelude::*;

verus! {

// ---------------------------------------------------------------------------
// Character classes
// ---------------------------------------------------------------------------

/// Unicode general category Cc: U+0000..U+001F and U+007F..U+009F.
pub open spec fn is_control(c: char) -> bool {
    (c as u32) <= 0x1f || (0x7f <= (c as u32) && (c as u32) <= 0x9f)
}

/// The Unicode `White_Space` property.
pub open spec fn is_white(c: char) -> bool {
    let u = c as u32;
    ||| 0x09 <= u && u <= 0x0d
    ||| u == 0x20
    ||| u == 0x85
    ||| u == 0xa0
    ||| u == 0x1680
    ||| 0x2000 <= u && u <= 0x200a
    ||| u == 0x2028
    ||| u == 0x2029
    ||| u == 0x202f
    ||| u == 0x205f
    ||| u == 0x3000
}

pub open spec fn is_ascii_alnum(c: char) -> bool {
    ('0' <= c && c <= '9') || ('a' <= c && c <= 'z') || ('A' <= c && c <= 'Z')
}

/// ASCII lower-casing of one character; every other character is unchanged.
pub open spec fn ascii_lower(c: char) -> char {
    if 'A' <= c && c <= 'Z' {
        ((c as u32) + 32) as char
    } else {
        c
    }
}

pub open spec fn ascii_lower_seq(s: Seq<char>) -> Seq<char> {
    s.map_values(|c: char| ascii_lower(c))
}

pub fn char_is_control(c: char) -> (r: bool)
    ensures
        r == is_control(c),
{
    let u: u32 = c as u32;
    u <= 0x1f || (0x7f <= u && u <= 0x9f)
}

pub fn char_is_white(c: char) -> (r: bool)
    ensures
        r == is_white(c),
{
    let u: u32 = c as u32;
    (0x09 <= u && u <= 0x0d) || u == 0x20 || u == 0x85 || u == 0xa0 || u == 0x1680 || (0x2000
        <= u && u <= 0x200a) || u == 0x2028 || u == 0x2029 || u == 0x202f || u == 0x205f || u
        == 0x3000
}

pub fn char_is_ascii_alnum(c: char) -> (r: bool)
    ensures
        r == is_ascii_alnum(c),
{
    ('0' <= c && c <= '9') || ('a' <= c && c <= 'z') || ('A' <= c && c <= 'Z')
}

pub fn char_ascii_lower(c: char) -> (r: char)
    ensures
        r == ascii_lower(c),
{
    if 'A' <= c && c <= 'Z' {
        let u: u32 = (c as u32) + 32;
        assert(0x61 <= u <= 0x7a);
        char_from_ascii(u)
    } else {
        c
    }
}

/// The character with an ASCII code point.
fn char_from_ascii(u: u32) -> (r: char)
    requires
        u < 0x80,
    ensures
        r == u as char,
        r as u32 == u,
{
    let b: u8 = u as u8;
    b as char
}

// ---------------------------------------------------------------------------
// Conversions between `str`/`String` and `Vec<char>`
// ---------------------------------------------------------------------------

/// The characters of a string.
pub fn chars_of(s: &str) -> (r: Vec<char>)
    ensures
        r@ == s@,
{
    let n: usize = s.unicode_len();
    let mut r: Vec<char> = Vec::new();
    let mut i: usize = 0;
    while i < n
        invariant
            n == s@.len(),
            i <= n,
            r@ == s@.take(i as int),
        decreases n - i,
    {
        let c: char = s.get_char(i);
        r.push(c);
        i = i + 1;
        assert(r@ =~= s@.take(i as int));
    }
    assert(r@ =~= s@);
    r
}

/// Appends one character to a `String` (std `String::push`).
#[verifier::external_body]
pub(crate) fn push_char(s: &mut String, c: char)
    ensures
        final(s)@ == old(s)@.push(c),
{
    s.push(c);
}

/// The string made of the given characters.
pub fn string_of(v: &Vec<char>) -> (r: String)
    ensures
        r@ == v@,
{
    let mut r: String = String::new();
    let mut i: usize = 0;
    while i < v.len()
        invariant
            i <= v.len(),
            r@ == v@.take(i as int),
        decreases v.len() - i,
    {
        push_char(&mut r, v[i]);
        i = i + 1;
        assert(r@ =~= v@.take(i as int));
    }
    assert(r@ =~= v@);
    r
}

/// A fresh copy of a character vector.
pub fn copy_chars(v: &Vec<char>) -> (r: Vec<char>)
    ensures
        r@ == v@,
{
    let mut r: Vec<char> = Vec::new();
    let mut i: usize = 0;
    while i < v.len()
        invariant
            i <= v.len(),
            r@ == v@.take(i as int),
        decreases v.len() - i,
    {
        r.push(v[i]);
        i = i + 1;
        assert(r@ =~= v@.take(i as int));
    }
    assert(r@ =~= v@);
    r
}

/// A copy of a `String`.
pub fn copy_string(s: &String) -> (r: String)
    ensures
        r@ == s@,
{
    let v: Vec<char> = chars_of(s.as_str());
    string_of(&v)
}

/// The string of a character-sequence literal given as characters.
pub fn string_from_str(s: &str) -> (r: String)
    ensures
        r@ == s@,
{
    let v: Vec<char> = chars_of(s);
    string_of(&v)
}

// ---------------------------------------------------------------------------
// Equality, search and containment
// ---------------------------------------------------------------------------

pub fn chars_equal(a: &Vec<char>, b: &Vec<char>) -> (r: bool)
    ensures
        r == (a@ == b@),
{
    if a.len() != b.len() {
        return false;
    }
    let mut i: usize = 0;
    while i < a.len()
        invariant
            a.len() == b.len(),
            i <= a.len(),
            forall|k: int| 0 <= k < i ==> a@[k] == b@[k],
        decreases a.len() - i,
    {
        if a[i] != b[i] {
            return false;
        }
        i = i + 1;
    }
    assert(a@ =~= b@);
    true
}

pub fn strings_equal(a: &str, b: &str) -> (r: bool)
    ensures
        r == (a@ == b@),
{
    let x: Vec<char> = chars_of(a);
    let y: Vec<char> = chars_of(b);
    chars_equal(&x, &y)
}

pub fn contains_char(v: &Vec<char>, c: char) -> (r: bool)
    ensures
        r == v@.contains(c),
{
    let mut i: usize = 0;
    while i < v.len()
        invariant
            i <= v.len(),
            forall|k: int| 0 <= k < i ==> v@[k] != c,
        decreases v.len() - i,
    {
        if v[i] == c {
            assert(v@[i as int] == c);
            return true;
        }
        i = i + 1;
    }
    false
}

/// Whether `pat` occurs in `s` starting at position `i`.
pub open spec fn occurs_at(s: Seq<char>, pat: Seq<char>, i: int) -> bool {
    0 <= i && i + pat.len() <= s.len() && s.subrange(i, i + pat.len()) == pat
}

pub fn matches_at(s: &Vec<char>, pat: &Vec<char>, i: usize) -> (r: bool)
    ensures
        r == occurs_at(s@, pat@, i as int),
{
    if i > s.len() || pat.len() > s.len() - i {
        return false;
    }
    let mut k: usize = 0;
    while k < pat.len()
        invariant
            i + pat.len() <= s.len(),
            k <= pat.len(),
            forall|j: int| 0 <= j < k ==> s@[i + j] == pat@[j],
        decreases pat.len() - k,
    {
        if s[i + k] != pat[k] {
            assert(s@.subrange(i as int, i + pat.len())[k as int] != pat@[k as int]);
            return false;
        }
        k = k + 1;
    }
    assert(s@.subrange(i as int, i + pat@.len()) =~= pat@);
    true
}

pub open spec fn is_prefix(pre: Seq<char>, s: Seq<char>) -> bool {
    occurs_at(s, pre, 0)
}

pub open spec fn is_suffix(suf: Seq<char>, s: Seq<char>) -> bool {
    suf.len() <= s.len() && s.subrange(s.len() - suf.len(), s.len() as int) == suf
}

pub fn starts_with(s: &Vec<char>, pre: &Vec<char>) -> (r: bool)
    ensures
        r == is_prefix(pre@, s@),
{
    matches_at(s, pre, 0)
}

pub fn ends_with(s: &Vec<char>, suf: &Vec<char>) -> (r: bool)
    ensures
        r == is_suffix(suf@, s@),
{
    if suf.len() > s.len() {
        return false;
    }
    matches_at(s, suf, s.len() - suf.len())
}

// ---------------------------------------------------------------------------
// Trimming
// ---------------------------------------------------------------------------

/// How many leading characters satisfy `p`.
pub open spec fn lead_count(s: Seq<char>, p: spec_fn(char) -> bool) -> nat
    decreases s.len(),
{
    if s.len() > 0 && p(s[0]) {
        1 + lead_count(s.drop_first(), p)
    } else {
        0
    }
}

/// How many trailing characters satisfy `p`.
pub open spec fn trail_count(s: Seq<char>, p: spec_fn(char) -> bool) -> nat
    decreases s.len(),
{
    if s.len() > 0 && p(s.last()) {
        1 + trail_count(s.drop_last(), p)
    } else {
        0
    }
}

pub open spec fn trim_start_by(s: Seq<char>, p: spec_fn(char) -> bool) -> Seq<char> {
    s.skip(lead_count(s, p) as int)
}

pub open spec fn trim_end_by(s: Seq<char>, p: spec_fn(char) -> bool) -> Seq<char> {
    s.take(s.len() - trail_count(s, p))
}

/// Both ends stripped of characters satisfying `p` (std `trim_matches`).
pub open spec fn trim_by(s: Seq<char>, p: spec_fn(char) -> bool) -> Seq<char> {
    trim_end_by(trim_start_by(s, p), p)
}

pub open spec fn white_pred() -> spec_fn(char) -> bool {
    |c: char| is_white(c)
}

pub open spec fn dot_pred() -> spec_fn(char) -> bool {
    |c: char| c == '.'
}

/// std `str::trim`.
pub open spec fn trim_white(s: Seq<char>) -> Seq<char> {
    trim_by(s, white_pred())
}

/// std `str::trim_matches('.')`.
pub open spec fn trim_dots(s: Seq<char>) -> Seq<char> {
    trim_by(s, dot_pred())
}

pub proof fn lemma_lead_count(s: Seq<char>, p: spec_fn(char) -> bool)
    ensures
        lead_count(s, p) <= s.len(),
        forall|k: int| 0 <= k < lead_count(s, p) ==> p(#[trigger] s[k]),
        lead_count(s, p) < s.len() ==> !p(s[lead_count(s, p) as int]),
    decreases s.len(),
{
    if s.len() > 0 && p(s[0]) {
        lemma_lead_count(s.drop_first(), p);
        assert forall|k: int| 0 <= k < lead_count(s, p) implies p(#[trigger] s[k]) by {
            if k > 0 {
                assert(s[k] == s.drop_first()[k - 1]);
            }
        }
    }
}

pub proof fn lemma_trail_count(s: Seq<char>, p: spec_fn(char) -> bool)
    ensures
        trail_count(s, p) <= s.len(),
        forall|k: int| s.len() - trail_count(s, p) <= k < s.len() ==> p(#[trigger] s[k]),
        trail_count(s, p) < s.len() ==> !p(s[s.len() - trail_count(s, p) - 1]),
    decreases s.len(),
{
    if s.len() > 0 && p(s.last()) {
        lemma_trail_count(s.drop_last(), p);
        assert forall|k: int| s.len() - trail_count(s, p) <= k < s.len() implies p(
            #[trigger] s[k],
        ) by {
            if k < s.len() - 1 {
                assert(s[k] == s.drop_last()[k]);
            }
        }
    }
}

/// The first index at which `p` fails is the lead count.
pub proof fn lemma_lead_count_unique(s: Seq<char>, p: spec_fn(char) -> bool, i: int)
    requires
        0 <= i <= s.len(),
        forall|k: int| 0 <= k < i ==> p(#[trigger] s[k]),
        i < s.len() ==> !p(s[i]),
    ensures
        lead_count(s, p) == i,
{
    lemma_lead_count(s, p);
    if lead_count(s, p) < i {
        assert(p(s[lead_count(s, p) as int]));
    }
    if lead_count(s, p) > i {
        assert(p(s[i]));
    }
}

pub proof fn lemma_trail_count_unique(s: Seq<char>, p: spec_fn(char) -> bool, j: int)
    requires
        0 <= j <= s.len(),
        forall|k: int| j <= k < s.len() ==> p(#[trigger] s[k]),
        j > 0 ==> !p(s[j - 1]),
    ensures
        trail_count(s, p) == s.len() - j,
{
    lemma_trail_count(s, p);
    let t = trail_count(s, p);
    if s.len() - t > j {
        assert(p(s[s.len() - t - 1]));
    }
    if s.len() - t < j {
        assert(p(s[j - 1]));
    }
}

/// Strips whitespace from both ends (std `str::trim`).
pub fn trim_white_chars(v: &Vec<char>) -> (r: Vec<char>)
    ensures
        r@ == trim_white(v@),
{
    let n: usize = v.len();
    let mut i: usize = 0;
    while i < n && char_is_white(v[i])
        invariant
            n == v.len(),
            i <= n,
            forall|k: int| 0 <= k < i ==> is_white(#[trigger] v@[k]),
        decreases n - i,
    {
        i = i + 1;
    }
    proof {
        lemma_lead_count_unique(v@, white_pred(), i as int);
    }
    let mut j: usize = n;
    while j > i && char_is_white(v[j - 1])
        invariant
            n == v.len(),
            i <= j <= n,
            forall|k: int| j <= k < n ==> is_white(#[trigger] v@[k]),
        decreases j,
    {
        j = j - 1;
    }
    let ghost t = v@.skip(i as int);
    proof {
        assert forall|k: int| j - i <= k < t.len() implies (white_pred())(#[trigger] t[k]) by {
            assert(t[k] == v@[k + i]);
        }
        if j > i {
            assert(t[j - i - 1] == v@[j - 1]);
        }
        lemma_trail_count_unique(t, white_pred(), j - i);
    }
    let r = slice_chars(v, i, j);
    assert(r@ =~= t.take(t.len() - trail_count(t, white_pred())));
    r
}

/// Strips `.` from both ends (std `str::trim_matches('.')`).
pub fn trim_dot_chars(v: &Vec<char>) -> (r: Vec<char>)
    ensures
        r@ == trim_dots(v@),
{
    let n: usize = v.len();
    let mut i: usize = 0;
    while i < n && v[i] == '.'
        invariant
            n == v.len(),
            i <= n,
            forall|k: int| 0 <= k < i ==> #[trigger] v@[k] == '.',
        decreases n - i,
    {
        i = i + 1;
    }
    proof {
        lemma_lead_count_unique(v@, dot_pred(), i as int);
    }
    let mut j: usize = n;
    while j > i && v[j - 1] == '.'
        invariant
            n == v.len(),
            i <= j <= n,
            forall|k: int| j <= k < n ==> #[trigger] v@[k] == '.',
        decreases j,
    {
        j = j - 1;
    }
    let ghost t = v@.skip(i as int);
    proof {
        assert forall|k: int| j - i <= k < t.len() implies (dot_pred())(#[trigger] t[k]) by {
            assert(t[k] == v@[k + i]);
        }
        if j > i {
            assert(t[j - i - 1] == v@[j - 1]);
        }
        lemma_trail_count_unique(t, dot_pred(), j - i);
    }
    let r = slice_chars(v, i, j);
    assert(r@ =~= t.take(t.len() - trail_count(t, dot_pred())));
    r
}

/// The characters at positions `i..j`.
pub fn slice_chars(v: &Vec<char>, i: usize, j: usize) -> (r: Vec<char>)
    requires
        i <= j <= v.len(),
    ensures
        r@ == v@.subrange(i as int, j as int),
{
    let mut r: Vec<char> = Vec::new();
    let mut k: usize = i;
    while k < j
        invariant
            i <= k <= j <= v.len(),
            r@ == v@.subrange(i as int, k as int),
        decreases j - k,
    {
        r.push(v[k]);
        k = k + 1;
        assert(r@ =~= v@.subrange(i as int, k as int));
    }
    r
}

// ---------------------------------------------------------------------------
// Splitting on a separator character (std `str::split(char)`)
// ---------------------------------------------------------------------------

/// Index of the first occurrence of `c`, or `s.len()` when there is none.
pub open spec fn first_index_of(s: Seq<char>, c: char) -> nat
    decreases s.len(),
{
    if s.len() == 0 {
        0
    } else if s[0] == c {
        0
    } else {
        1 + first_index_of(s.drop_first(), c)
    }
}

pub proof fn lemma_first_index_of(s: Seq<char>, c: char)
    ensures
        first_index_of(s, c) <= s.len(),
        forall|k: int| 0 <= k < first_index_of(s, c) ==> #[trigger] s[k] != c,
        first_index_of(s, c) < s.len() ==> s[first_index_of(s, c) as int] == c,
        (first_index_of(s, c) == s.len()) == !s.contains(c),
    decreases s.len(),
{
    if s.len() > 0 && s[0] != c {
        lemma_first_index_of(s.drop_first(), c);
        assert forall|k: int| 0 <= k < first_index_of(s, c) implies #[trigger] s[k] != c by {
            if k > 0 {
                assert(s[k] == s.drop_first()[k - 1]);
            }
        }
        if first_index_of(s, c) == s.len() {
            assert forall|k: int| 0 <= k < s.len() implies s[k] != c by {}
        } else {
            assert(s[first_index_of(s, c) as int] == c);
        }
    } else if s.len() > 0 {
        assert(s[0] == c);
    }
}

/// The pieces of `s` between occurrences of `c`; always at least one piece.
pub open spec fn split_by(s: Seq<char>, c: char) -> Seq<Seq<char>>
    decreases s.len(),
{
    let i = first_index_of(s, c);
    if i >= s.len() {
        seq![s]
    } else {
        seq![s.take(i as int)] + split_by(s.skip(i as int + 1), c)
    }
}

pub proof fn lemma_split_by_nonempty(s: Seq<char>, c: char)
    ensures
        split_by(s, c).len() >= 1,
        forall|k: int| 0 <= k < split_by(s, c).len() ==> !(#[trigger] split_by(s, c)[k]).contains(c),
    decreases s.len(),
{
    lemma_first_index_of(s, c);
    let i = first_index_of(s, c);
    if i < s.len() {
        lemma_split_by_nonempty(s.skip(i as int + 1), c);
        let rest = split_by(s.skip(i as int + 1), c);
        assert forall|k: int| 0 <= k < split_by(s, c).len() implies !(#[trigger] split_by(
            s,
            c,
        )[k]).contains(c) by {
            if k == 0 {
                assert(split_by(s, c)[0] == s.take(i as int));
                assert forall|m: int| 0 <= m < s.take(i as int).len() implies s.take(
                    i as int,
                )[m] != c by {
                    assert(s.take(i as int)[m] == s[m]);
                }
            } else {
                assert(split_by(s, c)[k] == rest[k - 1]);
            }
        }
    } else {
        assert(!s.contains(c));
    }
}

/// Splits the characters on every occurrence of `c`.
pub fn split_chars(v: &Vec<char>, c: char) -> (r: Vec<Vec<char>>)
    ensures
        r@.len() == split_by(v@, c).len(),
        forall|k: int| 0 <= k < r@.len() ==> (#[trigger] r@[k])@ == split_by(v@, c)[k],
{
    let mut r: Vec<Vec<char>> = Vec::new();
    let mut cur: Vec<char> = Vec::new();
    let mut start: usize = 0;
    let mut i: usize = 0;
    let ghost pieces: Seq<Seq<char>> = Seq::empty();
    assert(v@.skip(0) =~= v@);
    assert(pieces + split_by(v@, c) =~= split_by(v@, c));
    assert(cur@ =~= v@.subrange(0, 0));
    while i < v.len()
        invariant
            start <= i <= v.len(),
            cur@ == v@.subrange(start as int, i as int),
            !cur@.contains(c),
            r@.len() == pieces.len(),
            forall|k: int| 0 <= k < r@.len() ==> (#[trigger] r@[k])@ == pieces[k],
            split_by(v@, c) == pieces + split_by(v@.skip(start as int), c),
        decreases v.len() - i,
    {
        if v[i] == c {
            let ghost t = v@.skip(start as int);
            proof {
                assert forall|k: int| 0 <= k < i - start implies #[trigger] t[k] != c by {
                    assert(t[k] == cur@[k]);
                }
                assert(t[i - start] == c);
                lemma_first_index_of(t, c);
                if first_index_of(t, c) < i - start {
                    assert(t[first_index_of(t, c) as int] == c);
                }
                if first_index_of(t, c) > i - start {
                    assert(t[i - start] != c);
                }
                assert(first_index_of(t, c) == i - start);
                assert(t.take(i - start) =~= cur@);
                assert(t.skip(i - start + 1) =~= v@.skip(i + 1));
                assert(split_by(t, c) == seq![cur@] + split_by(v@.skip(i + 1), c));
                pieces = pieces.push(cur@);
                assert(split_by(v@, c) =~= pieces + split_by(v@.skip(i + 1), c));
            }
            let done = cur;
            r.push(done);
            cur = Vec::new();
            start = i + 1;
            i = i + 1;
            assert(cur@ =~= v@.subrange(start as int, i as int));
        } else {
            cur.push(v[i]);
            i = i + 1;
            assert(cur@ =~= v@.subrange(start as int, i as int));
        }
    }
    let ghost t = v@.skip(start as int);
    proof {
        assert(t =~= cur@);
        lemma_first_index_of(t, c);
        assert(split_by(t, c) == seq![cur@]);
    }
    let ghost old_r = r@;
    r.push(cur);
    proof {
        assert forall|k: int| 0 <= k < r@.len() implies (#[trigger] r@[k])@ == (pieces + seq![
            t,
        ])[k] by {
            if k < old_r.len() {
                assert(r@[k] == old_r[k]);
            }
        }
        assert(split_by(v@, c) =~= pieces + seq![t]);
    }
    r
}

// ---------------------------------------------------------------------------
// Replacing every occurrence of a pattern (std `str::replace`)
// ---------------------------------------------------------------------------

/// Non-overlapping, left-to-right replacement of a non-empty pattern.
pub open spec fn replace_all(s: Seq<char>, pat: Seq<char>, rep: Seq<char>) -> Seq<char>
    recommends
        pat.len() > 0,
    decreases s.len(),
{
    if s.len() == 0 || pat.len() == 0 {
        s
    } else if occurs_at(s, pat, 0) {
        rep + replace_all(s.skip(pat.len() as int), pat, rep)
    } else {
        seq![s[0]] + replace_all(s.drop_first(), pat, rep)
    }
}

/// Replaces every occurrence of `pat` (non-empty) by `rep`.
pub fn replace_chars(s: &Vec<char>, pat: &Vec<char>, rep: &Vec<char>) -> (r: Vec<char>)
    requires
        pat@.len() > 0,
    ensures
        r@ == replace_all(s@, pat@, rep@),
{
    let mut r: Vec<char> = Vec::new();
    let mut i: usize = 0;
    assert(s@.skip(0) =~= s@);
    assert(r@ + replace_all(s@, pat@, rep@) =~= replace_all(s@, pat@, rep@));
    while i < s.len()
        invariant
            pat@.len() > 0,
            i <= s.len(),
            replace_all(s@, pat@, rep@) == r@ + replace_all(s@.skip(i as int), pat@, rep@),
        decreases s.len() - i,
    {
        let ghost t = s@.skip(i as int);
        if matches_at(s, pat, i) {
            proof {
                assert(t.subrange(0, pat@.len() as int) =~= s@.subrange(
                    i as int,
                    i + pat@.len(),
                ));
                assert(occurs_at(t, pat@, 0));
                assert(t.skip(pat@.len() as int) =~= s@.skip(i + pat@.len()));
            }
            let mut k: usize = 0;
            let ghost r0 = r@;
            while k < rep.len()
                invariant
                    k <= rep.len(),
                    r@ == r0 + rep@.take(k as int),
                decreases rep.len() - k,
            {
                r.push(rep[k]);
                k = k + 1;
                assert(r@ =~= r0 + rep@.take(k as int));
            }
            assert(rep@.take(rep@.len() as int) =~= rep@);
            assert(r@ + replace_all(s@.skip(i + pat@.len()), pat@, rep@) =~= r0 + (rep@
                + replace_all(t.skip(pat@.len() as int), pat@, rep@)));
            i = i + pat.len();
        } else {
            proof {
                if occurs_at(t, pat@, 0) {
                    assert(t.subrange(0, pat@.len() as int) =~= s@.subrange(
                        i as int,
                        i + pat@.len(),
                    ));
                }
                assert(t.drop_first() =~= s@.skip(i + 1));
                assert(t[0] == s@[i as int]);
            }
            let ghost r0 = r@;
            r.push(s[i]);
            assert(r@ + replace_all(s@.skip(i + 1), pat@, rep@) =~= r0 + (seq![t[0]]
                + replace_all(t.drop_first(), pat@, rep@)));
            i = i + 1;
        }
    }
    assert(s@.skip(i as int) =~= Seq::<char>::empty());
    assert(r@ + Seq::<char>::empty() =~= r@);
    r
}

// ---------------------------------------------------------------------------
// Lexicographic order by code point (the order of `String` in std)
// ---------------------------------------------------------------------------

pub open spec fn seq_lt(a: Seq<char>, b: Seq<char>) -> bool
    decreases a.len(),
{
    if a.len() == 0 {
        b.len() > 0
    } else if b.len() == 0 {
        false
    } else if a[0] != b[0] {
        (a[0] as u32) < (b[0] as u32)
    } else {
        seq_lt(a.drop_first(), b.drop_first())
    }
}

pub proof fn lemma_seq_lt_trichotomy(a: Seq<char>, b: Seq<char>)
    ensures
        a != b ==> (seq_lt(a, b) || seq_lt(b, a)),
        !(seq_lt(a, b) && seq_lt(b, a)),
    decreases a.len(),
{
    if a.len() > 0 && b.len() > 0 {
        if a[0] == b[0] {
            lemma_seq_lt_trichotomy(a.drop_first(), b.drop_first());
            if a != b {
                if a.drop_first() == b.drop_first() {
                    assert(a =~= seq![a[0]] + a.drop_first());
                    assert(b =~= seq![b[0]] + b.drop_first());
                }
            }
        } else {
            vstd::utf8::char_u32_cast(a[0], a[0] as u32);
            vstd::utf8::char_u32_cast(b[0], b[0] as u32);
            assert((a[0] as u32) != (b[0] as u32));
        }
    } else if a.len() == 0 && b.len() == 0 {
        assert(a =~= b);
    }
}

pub proof fn lemma_seq_lt_transitive(a: Seq<char>, b: Seq<char>, c: Seq<char>)
    requires
        seq_lt(a, b),
        seq_lt(b, c),
    ensures
        seq_lt(a, c),
    decreases a.len(),
{
    if a.len() > 0 && b.len() > 0 && c.len() > 0 {
        if a[0] == b[0] && b[0] == c[0] {
            lemma_seq_lt_transitive(a.drop_first(), b.drop_first(), c.drop_first());
        }
    }
}

/// Strictly increasing, hence also free of repetitions.
pub open spec fn sorted_strict(s: Seq<Seq<char>>) -> bool {
    forall|i: int, j: int| 0 <= i < j < s.len() ==> seq_lt(#[trigger] s[i], #[trigger] s[j])
}

pub fn chars_less(a: &Vec<char>, b: &Vec<char>) -> (r: bool)
    ensures
        r == seq_lt(a@, b@),
{
    let mut i: usize = 0;
    assert(a@.skip(0) =~= a@);
    assert(b@.skip(0) =~= b@);
    while i < a.len() && i < b.len()
        invariant
            i <= a.len(),
            i <= b.len(),
            forall|k: int| 0 <= k < i ==> a@[k] == b@[k],
            seq_lt(a@, b@) == seq_lt(a@.skip(i as int), b@.skip(i as int)),
        decreases a.len() - i,
    {
        if a[i] != b[i] {
            proof {
                let x = a@.skip(i as int);
                let y = b@.skip(i as int);
                assert(x[0] == a@[i as int]);
                assert(y[0] == b@[i as int]);
            }
            return (a[i] as u32) < (b[i] as u32);
        }
        proof {
            let x = a@.skip(i as int);
            let y = b@.skip(i as int);
            assert(x.drop_first() =~= a@.skip(i + 1));
            assert(y.drop_first() =~= b@.skip(i + 1));
        }
        i = i + 1;
    }
    i < b.len()
}

// ---------------------------------------------------------------------------
// Sorted sets of strings
// ---------------------------------------------------------------------------

pub open spec fn views(v: Seq<Vec<char>>) -> Seq<Seq<char>> {
    v.map_values(|x: Vec<char>| x@)
}

pub open spec fn string_views(v: Seq<String>) -> Seq<Seq<char>> {
    v.map_values(|x: String| x@)
}

/// Inserts `x` into a strictly increasing list, keeping it strictly increasing.
pub fn sorted_insert(set: &mut Vec<Vec<char>>, x: Vec<char>)
    requires
        sorted_strict(views(old(set)@)),
    ensures
        sorted_strict(views(final(set)@)),
        views(final(set)@).to_set() == views(old(set)@).to_set().insert(x@),
{
    let ghost xv = x@;
    let mut i: usize = 0;
    while i < set.len() && chars_less(&set[i], &x)
        invariant
            i <= set.len(),
            forall|k: int| 0 <= k < i ==> seq_lt(#[trigger] set@[k]@, x@),
        decreases set.len() - i,
    {
        i = i + 1;
    }
    let ghost old_v = views(set@);
    if i < set.len() && chars_equal(&set[i], &x) {
        proof {
            assert(old_v[i as int] == x@);
            assert(old_v.to_set().insert(x@) =~= old_v.to_set());
        }
        return;
    }
    proof {
        if i < set.len() {
            lemma_seq_lt_trichotomy(set@[i as int]@, x@);
        }
    }
    set.insert(i, x);
    proof {
        let nv = views(set@);
        assert(nv =~= old_v.take(i as int).push(xv) + old_v.skip(i as int));
        assert forall|a: int, b: int| 0 <= a < b < nv.len() implies seq_lt(
            #[trigger] nv[a],
            #[trigger] nv[b],
        ) by {
            if b < i {
                assert(nv[a] == old_v[a] && nv[b] == old_v[b]);
            } else if b == i {
                assert(nv[a] == old_v[a]);
                assert(nv[b] == xv);
            } else if a == i {
                assert(nv[b] == old_v[b - 1]);
                assert(nv[a] == xv);
                if b - 1 > i {
                    assert(seq_lt(old_v[i as int], old_v[b - 1]));
                    lemma_seq_lt_transitive(xv, old_v[i as int], old_v[b - 1]);
                }
            } else if a < i {
                assert(nv[a] == old_v[a]);
                assert(nv[b] == old_v[b - 1]);
            } else {
                assert(nv[a] == old_v[a - 1]);
                assert(nv[b] == old_v[b - 1]);
            }
        }
        assert forall|s: Seq<char>| nv.to_set().contains(s) == old_v.to_set().insert(
            xv,
        ).contains(s) by {
            if nv.contains(s) {
                let k = choose|k: int| 0 <= k < nv.len() && nv[k] == s;
                if k < i {
                    assert(old_v[k] == s);
                } else if k > i {
                    assert(old_v[k - 1] == s);
                }
            }
            if old_v.contains(s) {
                let k = choose|k: int| 0 <= k < old_v.len() && old_v[k] == s;
                if k < i {
                    assert(nv[k] == s);
                } else {
                    assert(nv[k + 1] == s);
                }
            }
            if s == xv {
                assert(nv[i as int] == s);
            }
        }
        assert(nv.to_set() =~= old_v.to_set().insert(xv));
    }
}

/// Inserts every string of `items` into a strictly increasing list.
pub fn insert_strings(set: &mut Vec<Vec<char>>, items: &Vec<String>)
    requires
        sorted_strict(views(old(set)@)),
    ensures
        sorted_strict(views(final(set)@)),
        views(final(set)@).to_set() == views(old(set)@).to_set().union(string_views(items@).to_set()),
{
    let ghost s0 = views(set@).to_set();
    let mut i: usize = 0;
    while i < items.len()
        invariant
            i <= items.len(),
            sorted_strict(views(set@)),
            views(set@).to_set() == s0.union(string_views(items@).take(i as int).to_set()),
        decreases items.len() - i,
    {
        let ghost prev = views(set@).to_set();
        sorted_insert(set, chars_of(items[i].as_str()));
        proof {
            let t0 = string_views(items@).take(i as int);
            let t1 = string_views(items@).take(i + 1);
            assert(t1 =~= t0.push(items@[i as int]@));
            assert(t1.to_set() =~= t0.to_set().insert(items@[i as int]@)) by {
                assert forall|w: Seq<char>| t1.to_set().contains(w) == t0.to_set().insert(items@[i as int]@).contains(w) by {
                    if t1.contains(w) {
                        let k = choose|k: int| 0 <= k < t1.len() && t1[k] == w;
                        if k < i {
                            assert(t0[k] == w);
                        }
                    }
                    if t0.contains(w) {
                        let k = choose|k: int| 0 <= k < t0.len() && t0[k] == w;
                        assert(t1[k] == w);
                    }
                    if w == items@[i as int]@ {
                        assert(t1[i as int] == w);
                    }
                }
            }
            assert(views(set@).to_set() =~= s0.union(t1.to_set()));
        }
        i = i + 1;
    }
    assert(string_views(items@).take(i as int) =~= string_views(items@));
}

/// Removes the empty string from a strictly increasing list.
pub fn remove_empty(set: &mut Vec<Vec<char>>)
    requires
        sorted_strict(views(old(set)@)),
    ensures
        sorted_strict(views(final(set)@)),
        views(final(set)@).to_set() == views(old(set)@).to_set().remove(Seq::<char>::empty()),
{
    let ghost old_v = views(set@);
    if set.len() > 0 && set[0].len() == 0 {
        proof {
            assert forall|k: int| 0 < k < old_v.len() implies old_v[k].len() > 0 by {
                assert(seq_lt(old_v[0], old_v[k]));
            }
        }
        set.remove(0);
        proof {
            let nv = views(set@);
            assert(nv =~= old_v.skip(1));
            assert(old_v[0] =~= Seq::<char>::empty());
            assert forall|w: Seq<char>| nv.to_set().contains(w) == old_v.to_set().remove(Seq::<char>::empty()).contains(w) by {
                if nv.contains(w) {
                    let k = choose|k: int| 0 <= k < nv.len() && nv[k] == w;
                    assert(old_v[k + 1] == w);
                    assert(w.len() > 0);
                    assert(old_v.contains(w));
                }
                if old_v.contains(w) && w != Seq::<char>::empty() {
                    let k = choose|k: int| 0 <= k < old_v.len() && old_v[k] == w;
                    assert(k > 0);
                    assert(nv[k - 1] == w);
                    assert(nv.contains(w));
                }
            }
            assert(nv.to_set() =~= old_v.to_set().remove(Seq::<char>::empty()));
        }
    } else {
        proof {
            assert forall|k: int| 0 <= k < old_v.len() implies old_v[k].len() > 0 by {
                if k > 0 {
                    assert(seq_lt(old_v[0], old_v[k]));
                }
            }
            assert(!old_v.contains(Seq::<char>::empty()));
            assert(old_v.to_set() =~= old_v.to_set().remove(Seq::<char>::empty()));
        }
    }
}

/// The `String`s of a list of character vectors, in the same order.
pub fn strings_of(v: &Vec<Vec<char>>) -> (r: Vec<String>)
    ensures
        string_views(r@) == views(v@),
{
    let mut r: Vec<String> = Vec::new();
    let mut i: usize = 0;
    while i < v.len()
        invariant
            i <= v.len(),
            r@.len() == i,
            string_views(r@) == views(v@).take(i as int),
        decreases v.len() - i,
    {
        let s = string_of(&v[i]);
        let ghost r0 = r@;
        r.push(s);
        proof {
            assert(r@ == r0.push(s));
            assert forall|k: int| 0 <= k < r@.len() implies #[trigger] string_views(r@)[k]
                == views(v@).take(i + 1)[k] by {
                if k < i {
                    assert(r@[k] == r0[k]);
                    assert(string_views(r0)[k] == views(v@).take(i as int)[k]);
                }
            }
        }
        i = i + 1;
        assert(string_views(r@) =~= views(v@).take(i as int));
    }
    assert(views(v@).take(i as int) =~= views(v@));
    r
}

// ---------------------------------------------------------------------------
// UTF-8 byte lengths
// ---------------------------------------------------------------------------

/// Number of bytes in the UTF-8 encoding of `c`.
pub open spec fn utf8_width(c: char) -> nat {
    let u = c as u32;
    if u <= 0x7f {
        1
    } else if u <= 0x7ff {
        2
    } else if u <= 0xffff {
        3
    } else {
        4
    }
}

/// Number of bytes in the UTF-8 encoding of `s` (std `str::len`).
pub open spec fn utf8_len(s: Seq<char>) -> nat
    decreases s.len(),
{
    if s.len() == 0 {
        0
    } else {
        utf8_len(s.drop_last()) + utf8_width(s.last())
    }
}

pub fn char_utf8_width(c: char) -> (r: usize)
    ensures
        r == utf8_width(c),
{
    let u: u32 = c as u32;
    if u <= 0x7f {
        1
    } else if u <= 0x7ff {
        2
    } else if u <= 0xffff {
        3
    } else {
        4
    }
}

pub proof fn lemma_utf8_len_take(s: Seq<char>, i: int)
    requires
        0 <= i < s.len(),
    ensures
        utf8_len(s.take(i + 1)) == utf8_len(s.take(i)) + utf8_width(s[i]),
{
    assert(s.take(i + 1).drop_last() =~= s.take(i));
}

pub proof fn lemma_utf8_len_mono(s: Seq<char>, i: int, j: int)
    requires
        0 <= i <= j <= s.len(),
    ensures
        utf8_len(s.take(i)) <= utf8_len(s.take(j)),
        i < j ==> utf8_len(s.take(i)) < utf8_len(s.take(j)),
    decreases j - i,
{
    if i < j {
        lemma_utf8_len_mono(s, i, j - 1);
        lemma_utf8_len_take(s, j - 1);
    }
}

/// Byte length of the UTF-8 encoding, capped at `cap + 1` to stay in range.
pub fn utf8_len_capped(v: &Vec<char>, cap: usize) -> (r: usize)
    requires
        cap < usize::MAX,
    ensures
        r <= cap ==> r == utf8_len(v@),
        r > cap ==> utf8_len(v@) > cap && r == cap + 1,
{
    let mut total: usize = 0;
    let mut i: usize = 0;
    while i < v.len()
        invariant
            cap < usize::MAX,
            i <= v.len(),
            total == utf8_len(v@.take(i as int)),
            total <= cap,
        decreases v.len() - i,
    {
        proof {
            lemma_utf8_len_take(v@, i as int);
        }
        let w: usize = char_utf8_width(v[i]);
        if w > cap - total {
            proof {
                lemma_utf8_len_mono(v@, i + 1, v@.len() as int);
                assert(v@.take(v@.len() as int) =~= v@);
            }
            return cap + 1;
        }
        total = total + w;
        i = i + 1;
    }
    assert(v@.take(v@.len() as int) =~= v@);
    total
}

/// The longest prefix whose UTF-8 encoding has exactly `n` bytes, when `n`
/// falls on a character boundary (std `str::get(..n)`).
pub open spec fn byte_prefix(s: Seq<char>, n: nat) -> Option<Seq<char>> {
    if exists|k: int| 0 <= k <= s.len() && utf8_len(#[trigger] s.take(k)) == n {
        let k = choose|k: int| 0 <= k <= s.len() && utf8_len(#[trigger] s.take(k)) == n;
        Some(s.take(k))
    } else {
        None
    }
}

pub fn prefix_bytes(v: &Vec<char>, n: usize) -> (r: Option<Vec<char>>)
    ensures
        r is None <==> byte_prefix(v@, n as nat) is None,
        r matches Some(p) ==> byte_prefix(v@, n as nat) == Some(p@),
{
    let mut total: usize = 0;
    let mut i: usize = 0;
    while i < v.len() && total < n
        invariant
            i <= v.len(),
            total == utf8_len(v@.take(i as int)),
            total <= n,
        decreases v.len() - i,
    {
        proof {
            lemma_utf8_len_take(v@, i as int);
        }
        let w: usize = char_utf8_width(v[i]);
        if w > n - total {
            proof {
                assert forall|k: int| 0 <= k <= v@.len() implies utf8_len(
                    #[trigger] v@.take(k),
                ) != n by {
                    if k <= i {
                        lemma_utf8_len_mono(v@, k, i as int);
                    } else {
                        lemma_utf8_len_mono(v@, i + 1, k);
                    }
                }
            }
            return None;
        }
        total = total + w;
        i = i + 1;
    }
    if total == n {
        proof {
            let k = choose|k: int| 0 <= k <= v@.len() && utf8_len(#[trigger] v@.take(k)) == n;
            if k < i {
                lemma_utf8_len_mono(v@, k, i as int);
            }
            if k > i {
                lemma_utf8_len_mono(v@, i as int, k);
            }
        }
        let p = slice_chars(v, 0, i);
        assert(p@ =~= v@.take(i as int));
        Some(p)
    } else {
        proof {
            assert(i == v@.len());
            assert forall|k: int| 0 <= k <= v@.len() implies utf8_len(#[trigger] v@.take(k))
                != n by {
                lemma_utf8_len_mono(v@, k, i as int);
            }
        }
        None
    }
}

// ---------------------------------------------------------------------------
// Decimal numerals
// ---------------------------------------------------------------------------

pub open spec fn digit_char(d: nat) -> char {
    ((d % 10) + 48) as char
}

/// Decimal representation without leading zeros ("0" for zero).
pub open spec fn decimal(n: nat) -> Seq<char>
    decreases n,
{
    if n < 10 {
        seq![digit_char(n)]
    } else {
        decimal(n / 10).push(digit_char(n % 10))
    }
}

/// Decimal representation left-padded with zeros to at least `width` digits.
pub open spec fn zero_padded(n: nat, width: nat) -> Seq<char> {
    let d = decimal(n);
    if d.len() >= width {
        d
    } else {
        Seq::new((width - d.len()) as nat, |i: int| '0') + d
    }
}

fn digit(d: u64) -> (r: char)
    requires
        d < 10,
    ensures
        r == digit_char(d as nat),
{
    let u: u32 = (d as u32) + 48;
    char_from_ascii(u)
}

pub fn decimal_chars(n: u64) -> (r: Vec<char>)
    ensures
        r@ == decimal(n as nat),
        r@.len() >= 1,
    decreases n,
{
    if n < 10 {
        let mut r: Vec<char> = Vec::new();
        r.push(digit(n));
        assert(r@ =~= decimal(n as nat));
        r
    } else {
        let mut r = decimal_chars(n / 10);
        r.push(digit(n % 10));
        r
    }
}

pub fn zero_padded_chars(n: u64, width: usize) -> (r: Vec<char>)
    ensures
        r@ == zero_padded(n as nat, width as nat),
{
    let d = decimal_chars(n);
    if d.len() >= width {
        d
    } else {
        let mut r: Vec<char> = Vec::new();
        let pad: usize = width - d.len();
        let mut i: usize = 0;
        while i < pad
            invariant
                i <= pad,
                r@ == Seq::new(i as nat, |k: int| '0'),
            decreases pad - i,
        {
            r.push('0');
            i = i + 1;
            assert(r@ =~= Seq::new(i as nat, |k: int| '0'));
        }
        let mut j: usize = 0;
        let ghost r0 = r@;
        while j < d.len()
            invariant
                j <= d.len(),
                r@ == r0 + d@.take(j as int),
            decreases d.len() - j,
        {
            r.push(d[j]);
            j = j + 1;
            assert(r@ =~= r0 + d@.take(j as int));
        }
        assert(d@.take(j as int) =~= d@);
        r
    }
}

/// Appends the characters of `b` to `a`.
pub fn append_chars(a: &mut Vec<char>, b: &Vec<char>)
    ensures
        final(a)@ == old(a)@ + b@,
{
    let mut j: usize = 0;
    let ghost a0 = a@;
    while j < b.len()
        invariant
            j <= b.len(),
            a@ == a0 + b@.take(j as int),
        decreases b.len() - j,
    {
        a.push(b[j]);
        j = j + 1;
        assert(a@ =~= a0 + b@.take(j as int));
    }
    assert(b@.take(j as int) =~= b@);
}

/// Appends the characters of a string slice to `a`.
pub fn append_str(a: &mut Vec<char>, b: &str)
    ensures
        final(a)@ == old(a)@ + b@,
{
    let v = chars_of(b);
    append_chars(a, &v);
}

/// ASCII lower-casing of every character (std `to_ascii_lowercase`).
pub fn ascii_lower_chars(v: &Vec<char>) -> (r: Vec<char>)
    ensures
        r@ == ascii_lower_seq(v@),
{
    let mut r: Vec<char> = Vec::new();
    let mut i: usize = 0;
    while i < v.len()
        invariant
            i <= v.len(),
            r@ == ascii_lower_seq(v@.take(i as int)),
        decreases v.len() - i,
    {
        r.push(char_ascii_lower(v[i]));
        i = i + 1;
        assert(r@ =~= ascii_lower_seq(v@.take(i as int)));
    }
    assert(v@.take(i as int) =~= v@);
    r
}

/// std `eq_ignore_ascii_case`.
pub open spec fn eq_ignore_ascii_case(a: Seq<char>, b: Seq<char>) -> bool {
    ascii_lower_seq(a) == ascii_lower_seq(b)
}

pub fn chars_eq_ignore_ascii_case(a: &Vec<char>, b: &Vec<char>) -> (r: bool)
    ensures
        r == eq_ignore_ascii_case(a@, b@),
{
    let x = ascii_lower_chars(a);
    let y = ascii_lower_chars(b);
    chars_equal(&x, &y)
}

} // verus!
