//! Unix path strings, read the way `std::path::Path` reads them: components
//! are separated by `/`, empty and `.` components are ignored.
use vstd::prelude::*;
use crate::text::{
    append_chars, ascii_lower_chars, ascii_lower_seq, chars_equal, chars_of, contains_char,
    copy_chars, is_prefix, lemma_split_by_nonempty, slice_chars, split_by, split_chars,
    starts_with, string_from_str, string_of, string_views, views,
};

verus! {

/// The pieces that are real components: neither empty nor `.`.
pub open spec fn keep_components(pieces: Seq<Seq<char>>) -> Seq<Seq<char>>
    decreases pieces.len(),
{
    if pieces.len() == 0 {
        Seq::empty()
    } else {
        let rest = keep_components(pieces.drop_last());
        let p = pieces.last();
        if p.len() == 0 || p == seq!['.'] {
            rest
        } else {
            rest.push(p)
        }
    }
}

/// The components of a path (the root `/` is not one of them).
pub open spec fn components(p: Seq<char>) -> Seq<Seq<char>> {
    keep_components(split_by(p, '/'))
}

/// `Path::file_name`: the last component, unless it is `..`.
pub open spec fn file_name_of(p: Seq<char>) -> Option<Seq<char>> {
    let c = components(p);
    if c.len() == 0 || c.last() == seq!['.', '.'] {
        None
    } else {
        Some(c.last())
    }
}

/// `Path::parent` followed by `Path::file_name`.
pub open spec fn parent_name_of(p: Seq<char>) -> Option<Seq<char>> {
    let c = components(p);
    if c.len() >= 2 && c[c.len() - 2] != seq!['.', '.'] {
        Some(c[c.len() - 2])
    } else {
        None
    }
}

/// Index of the last occurrence of `c`, or -1.
pub open spec fn last_index_of(s: Seq<char>, c: char) -> int
    decreases s.len(),
{
    if s.len() == 0 {
        -1
    } else if s.last() == c {
        s.len() - 1
    } else {
        last_index_of(s.drop_last(), c)
    }
}

/// The stem of a file name: everything before the last `.`, unless that dot
/// is the first character or there is none.
pub open spec fn stem_of_name(n: Seq<char>) -> Seq<char> {
    let k = last_index_of(n, '.');
    if k <= 0 {
        n
    } else {
        n.take(k)
    }
}

/// The extension of a file name: everything after the last `.`, unless that
/// dot is the first character or there is none.
pub open spec fn ext_of_name(n: Seq<char>) -> Option<Seq<char>> {
    let k = last_index_of(n, '.');
    if k <= 0 {
        None
    } else {
        Some(n.skip(k + 1))
    }
}

/// `Path::file_stem`.
pub open spec fn file_stem_of(p: Seq<char>) -> Option<Seq<char>> {
    match file_name_of(p) {
        Some(n) => Some(stem_of_name(n)),
        None => None,
    }
}

/// `Path::extension`.
pub open spec fn extension_of(p: Seq<char>) -> Option<Seq<char>> {
    match file_name_of(p) {
        Some(n) => ext_of_name(n),
        None => None,
    }
}

pub proof fn lemma_last_index_of(s: Seq<char>, c: char)
    ensures
        -1 <= last_index_of(s, c) < s.len(),
        last_index_of(s, c) >= 0 ==> s[last_index_of(s, c)] == c,
        forall|k: int| last_index_of(s, c) < k < s.len() ==> #[trigger] s[k] != c,
    decreases s.len(),
{
    if s.len() > 0 && s.last() != c {
        lemma_last_index_of(s.drop_last(), c);
        assert forall|k: int| last_index_of(s, c) < k < s.len() implies #[trigger] s[k] != c by {
            if k < s.len() - 1 {
                assert(s[k] == s.drop_last()[k]);
            }
        }
    }
}

fn is_dot(v: &Vec<char>) -> (r: bool)
    ensures
        r == (v@ == seq!['.']),
{
    let d: Vec<char> = vec!['.'];
    assert(d@ =~= seq!['.']);
    chars_equal(v, &d)
}

fn is_dot_dot(v: &Vec<char>) -> (r: bool)
    ensures
        r == (v@ == seq!['.', '.']),
{
    let d: Vec<char> = vec!['.', '.'];
    assert(d@ =~= seq!['.', '.']);
    chars_equal(v, &d)
}

/// The components of a path.
pub fn path_components(p: &Vec<char>) -> (r: Vec<Vec<char>>)
    ensures
        views(r@) == components(p@),
{
    let pieces = split_chars(p, '/');
    let ghost pv = split_by(p@, '/');
    let mut r: Vec<Vec<char>> = Vec::new();
    let mut i: usize = 0;
    while i < pieces.len()
        invariant
            pieces@.len() == pv.len(),
            forall|k: int| 0 <= k < pieces@.len() ==> (#[trigger] pieces@[k])@ == pv[k],
            i <= pieces.len(),
            views(r@) == keep_components(pv.take(i as int)),
        decreases pieces.len() - i,
    {
        let piece: &Vec<char> = &pieces[i];
        proof {
            assert(pv.take(i + 1).drop_last() =~= pv.take(i as int));
            assert(pv.take(i + 1).last() == piece@);
        }
        if piece.len() == 0 || is_dot(piece) {
        } else {
            let c = copy_chars(piece);
            let ghost r0 = r@;
            r.push(c);
            assert(views(r@) =~= views(r0).push(c@));
        }
        i = i + 1;
    }
    assert(pv.take(i as int) =~= pv);
    r
}

/// `Path::file_name` on a path given as characters.
pub fn file_name_chars(p: &Vec<char>) -> (r: Option<Vec<char>>)
    ensures
        r is Some <==> file_name_of(p@) is Some,
        r matches Some(n) ==> file_name_of(p@) == Some(n@),
{
    let mut c = path_components(p);
    if c.len() == 0 {
        return None;
    }
    let last: Vec<char> = c.pop().unwrap();
    assert(last@ == components(p@).last());
    if is_dot_dot(&last) {
        None
    } else {
        Some(last)
    }
}

/// `Path::parent` then `Path::file_name`, on a path given as characters.
pub fn parent_name_chars(p: &Vec<char>) -> (r: Option<Vec<char>>)
    ensures
        r is Some <==> parent_name_of(p@) is Some,
        r matches Some(n) ==> parent_name_of(p@) == Some(n@),
{
    let c = path_components(p);
    if c.len() < 2 {
        return None;
    }
    let n: usize = c.len();
    assert(c@[n - 2]@ == components(p@)[n - 2]);
    if is_dot_dot(&c[n - 2]) {
        None
    } else {
        Some(copy_chars(&c[n - 2]))
    }
}

/// Index of the last `c`, or `None`.
pub fn last_index_chars(s: &Vec<char>, c: char) -> (r: Option<usize>)
    ensures
        r is None <==> last_index_of(s@, c) == -1,
        r matches Some(k) ==> last_index_of(s@, c) == k && k < s@.len(),
{
    let mut j: usize = s.len();
    while j > 0 && s[j - 1] != c
        invariant
            j <= s.len(),
            forall|k: int| j <= k < s.len() ==> #[trigger] s@[k] != c,
        decreases j,
    {
        j = j - 1;
    }
    proof {
        lemma_last_index_of(s@, c);
        let li = last_index_of(s@, c);
        if li >= j {
            assert(s@[li] == c);
        }
        if j > 0 && li < j - 1 {
            assert(s@[j - 1] == c);
        }
    }
    if j == 0 {
        None
    } else {
        Some(j - 1)
    }
}

pub fn stem_of_name_chars(n: &Vec<char>) -> (r: Vec<char>)
    ensures
        r@ == stem_of_name(n@),
{
    match last_index_chars(n, '.') {
        Some(k) => {
            if k == 0 {
                copy_chars(n)
            } else {
                let r = slice_chars(n, 0, k);
                assert(r@ =~= n@.take(k as int));
                r
            }
        },
        None => copy_chars(n),
    }
}

pub fn ext_of_name_chars(n: &Vec<char>) -> (r: Option<Vec<char>>)
    ensures
        r is Some <==> ext_of_name(n@) is Some,
        r matches Some(e) ==> ext_of_name(n@) == Some(e@),
{
    proof {
        lemma_last_index_of(n@, '.');
    }
    let li = last_index_chars(n, '.');
    match li {
        Some(k) => {
            let len: usize = n.len();
            assert(k < len);
            if k == 0 {
                None
            } else {
                let r = slice_chars(n, k + 1, len);
                assert(r@ =~= n@.skip(k + 1));
                Some(r)
            }
        },
        None => None,
    }
}

/// `Path::file_stem` on a path given as characters.
pub fn file_stem_chars(p: &Vec<char>) -> (r: Option<Vec<char>>)
    ensures
        r is Some <==> file_stem_of(p@) is Some,
        r matches Some(n) ==> file_stem_of(p@) == Some(n@),
{
    match file_name_chars(p) {
        Some(n) => Some(stem_of_name_chars(&n)),
        None => None,
    }
}

/// `Path::extension` on a path given as characters.
pub fn extension_chars(p: &Vec<char>) -> (r: Option<Vec<char>>)
    ensures
        r is Some <==> extension_of(p@) is Some,
        r matches Some(n) ==> extension_of(p@) == Some(n@),
{
    match file_name_chars(p) {
        Some(n) => ext_of_name_chars(&n),
        None => None,
    }
}

/// The lower-cased extension of a path, or the empty string.
pub open spec fn lower_extension(p: Seq<char>) -> Seq<char> {
    match extension_of(p) {
        Some(e) => ascii_lower_seq(e),
        None => Seq::empty(),
    }
}

/// The extension of `path` in ASCII lower case, or `""` when it has none.
pub fn extension(path: &str) -> (r: String)
    ensures
        r@ == lower_extension(path@),
{
    let p = chars_of(path);
    match extension_chars(&p) {
        Some(e) => {
            let l = ascii_lower_chars(&e);
            string_of(&l)
        },
        None => String::new(),
    }
}

/// A path in the library's string form, or the reason it cannot be one.
#[derive(Debug, Clone, Copy, PartialEq, Eq, Structural)]
pub enum PathError {
    /// The path holds a carriage return or a line feed.
    Newline,
}

impl PathError {
    pub fn message(&self) -> (r: String)
        ensures
            r@ == "Paths containing newlines are not supported"@,
    {
        string_from_str("Paths containing newlines are not supported")
    }
}

pub open spec fn has_newline(s: Seq<char>) -> bool {
    s.contains('\n') || s.contains('\r')
}

/// A path as text for the metadata tool: refused when it holds a newline.
pub fn path_string(path: &str) -> (r: Result<String, PathError>)
    ensures
        r is Err <==> has_newline(path@),
        r matches Ok(s) ==> s@ == path@,
        r matches Err(e) ==> e == PathError::Newline,
{
    let v = chars_of(path);
    if contains_char(&v, '\r') || contains_char(&v, '\n') {
        Err(PathError::Newline)
    } else {
        Ok(string_of(&v))
    }
}

// ---------------------------------------------------------------------------
// Components as `Path::components` yields them
// ---------------------------------------------------------------------------

pub open spec fn is_absolute(p: Seq<char>) -> bool {
    p.len() > 0 && p[0] == '/'
}

/// A path that begins with the current-directory component `.`.
pub open spec fn starts_at_current(p: Seq<char>) -> bool {
    !is_absolute(p) && (p == seq!['.'] || is_prefix(seq!['.', '/'], p))
}

/// `Path::components`: the root (written `/`) or a leading current directory
/// (written `.`), then the components.
pub open spec fn std_components(p: Seq<char>) -> Seq<Seq<char>> {
    let head = if is_absolute(p) {
        seq![seq!['/']]
    } else if starts_at_current(p) {
        seq![seq!['.']]
    } else {
        Seq::empty()
    };
    head + components(p)
}

pub open spec fn is_seq_prefix(a: Seq<Seq<char>>, b: Seq<Seq<char>>) -> bool {
    a.len() <= b.len() && b.take(a.len() as int) == a
}

fn std_components_chars(p: &Vec<char>) -> (r: Vec<Vec<char>>)
    ensures
        views(r@) == std_components(p@),
{
    let mut r: Vec<Vec<char>> = Vec::new();
    let dot_slash: Vec<char> = vec!['.', '/'];
    assert(dot_slash@ =~= seq!['.', '/']);
    if p.len() > 0 && p[0] == '/' {
        let v: Vec<char> = vec!['/'];
        assert(v@ =~= seq!['/']);
        r.push(v);
        assert(views(r@) =~= seq![seq!['/']]);
    } else if is_dot(p) || starts_with(p, &dot_slash) {
        let v: Vec<char> = vec!['.'];
        assert(v@ =~= seq!['.']);
        r.push(v);
        assert(views(r@) =~= seq![seq!['.']]);
    } else {
        assert(views(r@) =~= Seq::<Seq<char>>::empty());
    }
    let ghost head = views(r@);
    let c = path_components(p);
    let mut i: usize = 0;
    while i < c.len()
        invariant
            i <= c.len(),
            views(c@) == components(p@),
            views(r@) == head + views(c@).take(i as int),
        decreases c.len() - i,
    {
        let ghost r0 = views(r@);
        r.push(copy_chars(&c[i]));
        assert(views(r@) =~= r0.push(c@[i as int]@));
        assert(views(r@) =~= head + views(c@).take(i + 1));
        i = i + 1;
    }
    assert(views(c@).take(i as int) =~= views(c@));
    r
}

/// `Path::starts_with`: whether `path` lies at or below `root`, comparing
/// whole components.
#[verifier::loop_isolation(false)]
pub fn path_within(root: &str, path: &str) -> (r: bool)
    ensures
        r == is_seq_prefix(std_components(root@), std_components(path@)),
{
    let a = std_components_chars(&chars_of(root));
    let b = std_components_chars(&chars_of(path));
    if a.len() > b.len() {
        return false;
    }
    let mut i: usize = 0;
    while i < a.len()
        invariant
            a.len() <= b.len(),
            i <= a.len(),
            forall|k: int| 0 <= k < i ==> views(a@)[k] == views(b@)[k],
        decreases a.len() - i,
    {
        if !chars_equal(&a[i], &b[i]) {
            assert(views(b@).take(a@.len() as int)[i as int] != views(a@)[i as int]);
            return false;
        }
        i = i + 1;
    }
    assert(views(b@).take(a@.len() as int) =~= views(a@));
    true
}

/// A piece of a path below a root that is a plain name.
pub open spec fn normal_component(c: Seq<char>) -> bool {
    c != seq!['/'] && c != seq!['.'] && c != seq!['.', '.']
}

/// Why a directory is not a plain folder below a root.
#[derive(Debug, Clone, Copy, PartialEq, Eq, Structural)]
pub enum DirError {
    /// The directory is not below the root.
    Escaped,
    /// A component below the root is not a plain name.
    Unsafe,
}

impl DirError {
    pub fn message(&self) -> (r: String)
        ensures
            r@ == match *self {
                DirError::Escaped => "Destination escaped output root"@,
                DirError::Unsafe => "Unsafe destination path"@,
            },
    {
        match self {
            DirError::Escaped => string_of(&chars_of("Destination escaped output root")),
            DirError::Unsafe => string_of(&chars_of("Unsafe destination path")),
        }
    }
}

/// The components of `dir` below `root` (`Path::strip_prefix`), which must all
/// be plain names.
#[verifier::loop_isolation(false)]
pub fn relative_parts(root: &str, dir: &str) -> (r: Result<Vec<String>, DirError>)
    ensures
        !is_seq_prefix(std_components(root@), std_components(dir@)) ==> r == Err::<
            Vec<String>,
            DirError,
        >(DirError::Escaped),
        is_seq_prefix(std_components(root@), std_components(dir@)) ==> {
            let rest = std_components(dir@).skip(std_components(root@).len() as int);
            &&& (exists|k: int| 0 <= k < rest.len() && !normal_component(#[trigger] rest[k]))
                ==> r == Err::<Vec<String>, DirError>(DirError::Unsafe)
            &&& (forall|k: int| 0 <= k < rest.len() ==> normal_component(#[trigger] rest[k]))
                ==> (r matches Ok(v) && string_views(v@) == rest)
        },
{
    if !path_within(root, dir) {
        return Err(DirError::Escaped);
    }
    let a = std_components_chars(&chars_of(root));
    let b = std_components_chars(&chars_of(dir));
    let ghost rest = std_components(dir@).skip(std_components(root@).len() as int);
    let mut out: Vec<String> = Vec::new();
    let mut i: usize = a.len();
    let slash: Vec<char> = vec!['/'];
    let dot: Vec<char> = vec!['.'];
    let dotdot: Vec<char> = vec!['.', '.'];
    assert(slash@ =~= seq!['/']);
    assert(dot@ =~= seq!['.']);
    assert(dotdot@ =~= seq!['.', '.']);
    while i < b.len()
        invariant
            a@.len() <= i <= b@.len(),
            views(a@) == std_components(root@),
            views(b@) == std_components(dir@),
            rest == views(b@).skip(a@.len() as int),
            slash@ == seq!['/'],
            dot@ == seq!['.'],
            dotdot@ == seq!['.', '.'],
            string_views(out@) == rest.take(i - a@.len()),
            forall|k: int| 0 <= k < i - a@.len() ==> normal_component(#[trigger] rest[k]),
        decreases b.len() - i,
    {
        let c: &Vec<char> = &b[i];
        assert(rest[i - a@.len()] == c@);
        if chars_equal(c, &slash) || chars_equal(c, &dot) || chars_equal(c, &dotdot) {
            assert(!normal_component(rest[i - a@.len()]));
            return Err(DirError::Unsafe);
        }
        let ghost o0 = string_views(out@);
        out.push(string_of(c));
        assert(string_views(out@) =~= o0.push(c@));
        assert(string_views(out@) =~= rest.take(i + 1 - a@.len()));
        i = i + 1;
    }
    proof {
        assert(rest.take(i - a@.len()) =~= rest);
        if exists|k: int| 0 <= k < rest.len() && !normal_component(#[trigger] rest[k]) {
            let k = choose|k: int| 0 <= k < rest.len() && !normal_component(#[trigger] rest[k]);
            assert(normal_component(rest[k]));
        }
    }
    Ok(out)
}

// ---------------------------------------------------------------------------
// Sidecar paths
// ---------------------------------------------------------------------------

/// The last `/`-separated piece of a path.
pub open spec fn last_piece(p: Seq<char>) -> Seq<char> {
    split_by(p, '/').last()
}

/// A path that ends with a file name.
pub open spec fn names_a_file(p: Seq<char>) -> bool {
    let n = last_piece(p);
    n.len() > 0 && n != seq!['.'] && n != seq!['.', '.']
}

/// The same file with another extension (`Path::with_extension` on a path
/// that ends with a file name): the stem, a dot and `ext`, or just the stem
/// when `ext` is empty.
pub open spec fn sidecar_spec(p: Seq<char>, ext: Seq<char>) -> Seq<char> {
    let n = last_piece(p);
    let dir = p.take(p.len() - n.len());
    if ext.len() == 0 {
        dir + stem_of_name(n)
    } else {
        dir + stem_of_name(n) + seq!['.'] + ext
    }
}

pub proof fn lemma_last_piece_is_suffix(p: Seq<char>)
    ensures
        last_piece(p).len() <= p.len(),
        p.skip(p.len() - last_piece(p).len()) == last_piece(p),
        !last_piece(p).contains('/'),
        last_piece(p).len() < p.len() ==> p[p.len() - last_piece(p).len() - 1] == '/',
    decreases p.len(),
{
    crate::text::lemma_first_index_of(p, '/');
    lemma_split_by_nonempty(p, '/');
    let i = crate::text::first_index_of(p, '/');
    if i < p.len() {
        let rest = p.skip(i as int + 1);
        lemma_last_piece_is_suffix(rest);
        lemma_split_by_nonempty(rest, '/');
        assert(split_by(p, '/') == seq![p.take(i as int)] + split_by(rest, '/'));
        assert(last_piece(p) == last_piece(rest));
        assert(p.skip(p.len() - last_piece(p).len()) =~= rest.skip(rest.len() - last_piece(rest).len()));
        if last_piece(rest).len() == rest.len() {
            assert(p[p.len() - last_piece(p).len() - 1] == p[i as int]);
        } else {
            assert(p[p.len() - last_piece(p).len() - 1] == rest[rest.len() - last_piece(rest).len() - 1]);
        }
    } else {
        assert(last_piece(p) == p);
        assert(p.skip(0) =~= p);
    }
}

/// The path of a sidecar next to a file: same folder, same stem, another
/// extension.
pub fn sidecar_path(path: &str, ext: &str) -> (r: String)
    requires
        names_a_file(path@),
    ensures
        r@ == sidecar_spec(path@, ext@),
{
    let p = chars_of(path);
    let mut pieces = split_chars(&p, '/');
    proof {
        lemma_split_by_nonempty(p@, '/');
        lemma_last_piece_is_suffix(p@);
    }
    let k: usize = pieces.len();
    assert(pieces@[k - 1]@ == last_piece(p@));
    let n = pieces.pop().unwrap();
    let cut: usize = p.len() - n.len();
    let mut r = slice_chars(&p, 0, cut);
    assert(r@ =~= p@.take(p@.len() - n@.len()));
    let stem = stem_of_name_chars(&n);
    append_chars(&mut r, &stem);
    let e = chars_of(ext);
    if e.len() > 0 {
        r.push('.');
        append_chars(&mut r, &e);
    }
    string_of(&r)
}

} // verus!
