//! Metadata as reported by the metadata tool, lookups in it, the format
//! allow-lists, and the text exchanged with the tool.
use vstd::prelude::*;
pub use crate::paths::path_string;
use crate::paths::{has_newline, PathError};
use crate::text::{
    ascii_lower_chars, ascii_lower_seq, char_is_ascii_alnum, char_is_white, is_ascii_alnum,
    is_white, slice_chars,
    append_chars, append_str, chars_equal, chars_of, contains_char, copy_string, decimal,
    decimal_chars, seq_lt, sorted_insert, sorted_strict, split_by, split_chars, string_of,
    string_views, strings_equal, strings_of, trim_white_chars, trail_count, utf8_len,
    utf8_len_capped, views, white_pred, lemma_split_by_nonempty,
};

verus! {

// ---------------------------------------------------------------------------
// The metadata model
// ---------------------------------------------------------------------------

/// One metadata value as the library reads it.
#[derive(Debug, Clone)]
pub enum MetaValue {
    /// A JSON string.
    Text(String),
    /// A JSON number, in its JSON text form.
    Number(String),
    /// A JSON array; the text of its string elements and the JSON text of its
    /// numeric elements, and `None` for any other element.
    List(Vec<Option<String>>),
    /// Anything else (null, boolean, object).
    Other,
}

/// A tag name and its value.
#[derive(Debug, Clone)]
pub struct MetaEntry {
    pub key: String,
    pub value: MetaValue,
}

/// The tags of one file, in the order in which the metadata object is walked.
/// A metadata value that is not an object has no entries.
#[derive(Debug, Clone)]
pub struct Metadata {
    pub entries: Vec<MetaEntry>,
}

impl Metadata {
    /// No tags at all.
    pub fn empty() -> (r: Metadata)
        ensures
            r.entries@.len() == 0,
    {
        Metadata { entries: Vec::new() }
    }

    /// Adds a tag whose value is a string.
    pub fn push_text(&mut self, key: &str, value: &str)
        ensures
            final(self).entries@.len() == old(self).entries@.len() + 1,
            forall|k: int|
                0 <= k < old(self).entries@.len() ==> #[trigger] final(self).entries@[k] == old(
                    self,
                ).entries@[k],
            final(self).entries@.last().key@ == key@,
            final(self).entries@.last().value matches MetaValue::Text(s) && s@ == value@,
    {
        let k = string_of(&chars_of(key));
        let v = string_of(&chars_of(value));
        self.entries.push(MetaEntry { key: k, value: MetaValue::Text(v) });
    }
}

/// The part of a key after its last `:` (the whole key when it has none).
pub open spec fn last_segment(key: Seq<char>) -> Seq<char> {
    split_by(key, ':').last()
}

/// Whether a tag key answers to a requested name: exactly, or, for a name
/// without a group prefix, by the key's last segment.
pub open spec fn key_matches(key: Seq<char>, name: Seq<char>) -> bool {
    key == name || (!name.contains(':') && last_segment(key) == name)
}

/// The text of a string or numeric value.
pub open spec fn scalar_text(v: MetaValue) -> Option<Seq<char>> {
    match v {
        MetaValue::Text(s) => Some(s@),
        MetaValue::Number(s) => Some(s@),
        _ => None,
    }
}

/// The first entry that answers to `name` and has a string or numeric value.
pub open spec fn lookup_entries(es: Seq<MetaEntry>, name: Seq<char>) -> Option<Seq<char>>
    decreases es.len(),
{
    if es.len() == 0 {
        None
    } else if key_matches(es[0].key@, name) && scalar_text(es[0].value) is Some {
        scalar_text(es[0].value)
    } else {
        lookup_entries(es.drop_first(), name)
    }
}

/// The value for the first of `names` that has one.
pub open spec fn lookup(es: Seq<MetaEntry>, names: Seq<Seq<char>>) -> Option<Seq<char>>
    decreases names.len(),
{
    if names.len() == 0 {
        None
    } else {
        match lookup_entries(es, names[0]) {
            Some(v) => Some(v),
            None => lookup(es, names.drop_first()),
        }
    }
}

pub open spec fn str_views(v: Seq<&str>) -> Seq<Seq<char>> {
    v.map_values(|s: &str| s@)
}

fn last_segment_chars(key: &Vec<char>) -> (r: Vec<char>)
    ensures
        r@ == last_segment(key@),
{
    let mut parts = split_chars(key, ':');
    proof {
        lemma_split_by_nonempty(key@, ':');
    }
    let n: usize = parts.len();
    assert(parts@[n - 1]@ == split_by(key@, ':').last());
    parts.pop().unwrap()
}

fn key_matches_chars(key: &Vec<char>, name: &Vec<char>) -> (r: bool)
    ensures
        r == key_matches(key@, name@),
{
    if chars_equal(key, name) {
        return true;
    }
    if contains_char(name, ':') {
        return false;
    }
    let seg = last_segment_chars(key);
    chars_equal(&seg, name)
}

fn scalar_text_of(v: &MetaValue) -> (r: Option<String>)
    ensures
        r is Some <==> scalar_text(*v) is Some,
        r matches Some(s) ==> scalar_text(*v) == Some(s@),
{
    match v {
        MetaValue::Text(s) => Some(copy_string(s)),
        MetaValue::Number(s) => Some(copy_string(s)),
        _ => None,
    }
}

fn lookup_one(es: &Vec<MetaEntry>, name: &Vec<char>) -> (r: Option<String>)
    ensures
        r is Some <==> lookup_entries(es@, name@) is Some,
        r matches Some(s) ==> lookup_entries(es@, name@) == Some(s@),
{
    let mut j: usize = 0;
    assert(es@.skip(0) =~= es@);
    while j < es.len()
        invariant
            j <= es.len(),
            lookup_entries(es@, name@) == lookup_entries(es@.skip(j as int), name@),
        decreases es.len() - j,
    {
        let e: &MetaEntry = &es[j];
        let ghost rest = es@.skip(j as int);
        assert(rest[0] == es@[j as int]);
        assert(rest.drop_first() =~= es@.skip(j + 1));
        let key = chars_of(e.key.as_str());
        if key_matches_chars(&key, name) {
            let t = scalar_text_of(&e.value);
            if t.is_some() {
                return t;
            }
        }
        j = j + 1;
    }
    None
}

/// The text of the first requested tag that has a string or numeric value.
pub fn get(metadata: &Metadata, names: &[&str]) -> (r: Option<String>)
    ensures
        r is Some <==> lookup(metadata.entries@, str_views(names@)) is Some,
        r matches Some(s) ==> lookup(metadata.entries@, str_views(names@)) == Some(s@),
{
    let ghost nv = str_views(names@);
    let mut i: usize = 0;
    assert(nv.skip(0) =~= nv);
    while i < names.len()
        invariant
            nv == str_views(names@),
            i <= names@.len(),
            lookup(metadata.entries@, nv) == lookup(metadata.entries@, nv.skip(i as int)),
        decreases names@.len() - i,
    {
        let name = chars_of(names[i]);
        let ghost rest = nv.skip(i as int);
        assert(rest[0] == name@);
        assert(rest.drop_first() =~= nv.skip(i + 1));
        let found = lookup_one(&metadata.entries, &name);
        if found.is_some() {
            return found;
        }
        i = i + 1;
    }
    None
}

/// `get` for a single tag name.
pub fn get_one(metadata: &Metadata, name: &str) -> (r: Option<String>)
    ensures
        r is Some <==> lookup(metadata.entries@, seq![name@]) is Some,
        r matches Some(s) ==> lookup(metadata.entries@, seq![name@]) == Some(s@),
{
    let names: [&str; 1] = [name];
    let r = get(metadata, names.as_slice());
    assert(str_views(names@) =~= seq![name@]);
    r
}

// ---------------------------------------------------------------------------
// Keywords
// ---------------------------------------------------------------------------

/// Keys whose last segment is `Subject` or `Keywords` carry keywords.
pub open spec fn is_keyword_key(key: Seq<char>) -> bool {
    last_segment(key) == "Subject"@ || last_segment(key) == "Keywords"@
}

/// Whether an array element has the text `w`.
pub open spec fn item_is(o: Option<String>, w: Seq<char>) -> bool {
    o matches Some(s) && s@ == w
}

/// Whether a value carries the keyword `w`: a string or a number whose
/// text equals it, or an array with such an element (so a numeric keyword
/// such as `1999` reads back as its exact text).
pub open spec fn value_has_keyword(v: MetaValue, w: Seq<char>) -> bool {
    match v {
        MetaValue::Text(s) => s@ == w,
        MetaValue::Number(s) => s@ == w,
        MetaValue::List(items) => exists|k: int| 0 <= k < items@.len() && item_is(#[trigger] items@[k], w),
        _ => false,
    }
}

/// Whether an entry carries the keyword `w`.
pub open spec fn entry_has_keyword(e: MetaEntry, w: Seq<char>) -> bool {
    is_keyword_key(e.key@) && value_has_keyword(e.value, w)
}

pub open spec fn has_keyword(es: Seq<MetaEntry>, w: Seq<char>) -> bool {
    exists|i: int| 0 <= i < es.len() && entry_has_keyword(#[trigger] es[i], w)
}

/// Every keyword of the metadata, once each, in ascending order.
pub fn keywords_from(metadata: &Metadata) -> (r: Vec<String>)
    ensures
        sorted_strict(string_views(r@)),
        forall|w: Seq<char>| string_views(r@).contains(w) <==> has_keyword(metadata.entries@, w),
{
    let es = &metadata.entries;
    let mut set: Vec<Vec<char>> = Vec::new();
    let subject = chars_of("Subject");
    let keywords = chars_of("Keywords");
    let mut i: usize = 0;
    while i < es.len()
        invariant
            i <= es.len(),
            subject@ == "Subject"@,
            keywords@ == "Keywords"@,
            sorted_strict(views(set@)),
            forall|w: Seq<char>| views(set@).to_set().contains(w) <==> exists|m: int|
                0 <= m < i && entry_has_keyword(#[trigger] es@[m], w),
        decreases es.len() - i,
    {
        let e: &MetaEntry = &es[i];
        let key = chars_of(e.key.as_str());
        let seg = last_segment_chars(&key);
        let ghost before = views(set@).to_set();
        if chars_equal(&seg, &subject) || chars_equal(&seg, &keywords) {
            match &e.value {
                MetaValue::List(items) => {
                    let mut k: usize = 0;
                    while k < items.len()
                        invariant
                            k <= items.len(),
                            sorted_strict(views(set@)),
                            forall|w: Seq<char>| views(set@).to_set().contains(w) <==> (before.contains(w)
                                || exists|m: int| 0 <= m < k && item_is(#[trigger] items@[m], w)),
                        decreases items.len() - k,
                    {
                        let ghost prev = views(set@).to_set();
                        assert(forall|w: Seq<char>| prev.contains(w) <==> (before.contains(w)
                                || exists|m: int| 0 <= m < k && item_is(#[trigger] items@[m], w)));
                        match &items[k] {
                            Some(s) => {
                                sorted_insert(&mut set, chars_of(s.as_str()));
                            },
                            None => {},
                        }
                        proof {
                            assert forall|w: Seq<char>| views(set@).to_set().contains(w) <==> (before.contains(w)
                                || exists|m: int| 0 <= m < k + 1 && item_is(#[trigger] items@[m], w)) by {
                                if exists|m: int| 0 <= m < k + 1 && item_is(#[trigger] items@[m], w) {
                                    let m = choose|m: int| 0 <= m < k + 1 && item_is(#[trigger] items@[m], w);
                                    if m < k {
                                        assert(exists|m2: int| 0 <= m2 < k && item_is(#[trigger] items@[m2], w));
                                        assert(prev.contains(w));
                                    }
                                }
                                if prev.contains(w) && !before.contains(w) {
                                    let m = choose|m: int| 0 <= m < k && item_is(#[trigger] items@[m], w);
                                    assert(0 <= m < k + 1 && item_is(items@[m], w));
                                }
                            }
                        }
                        k = k + 1;
                    }
                },
                MetaValue::Text(s) => {
                    sorted_insert(&mut set, chars_of(s.as_str()));
                },
                MetaValue::Number(s) => {
                    sorted_insert(&mut set, chars_of(s.as_str()));
                },
                _ => {},
            }
        }
        proof {
            assert forall|w: Seq<char>| views(set@).to_set().contains(w) <==> exists|m: int|
                0 <= m < i + 1 && entry_has_keyword(#[trigger] es@[m], w) by {
                if exists|m: int| 0 <= m < i + 1 && entry_has_keyword(#[trigger] es@[m], w) {
                    let m = choose|m: int| 0 <= m < i + 1 && entry_has_keyword(#[trigger] es@[m], w);
                    if m < i {
                        assert(before.contains(w));
                    } else {
                        assert(entry_has_keyword(es@[i as int], w));
                    }
                }
                if before.contains(w) {
                    let m = choose|m: int| 0 <= m < i && entry_has_keyword(#[trigger] es@[m], w);
                    assert(0 <= m < i + 1 && entry_has_keyword(es@[m], w));
                }
                if views(set@).to_set().contains(w) && !before.contains(w) {
                    assert(entry_has_keyword(es@[i as int], w));
                }
            }
        }
        i = i + 1;
    }
    let r = strings_of(&set);
    proof {
        assert forall|w: Seq<char>| string_views(r@).contains(w) <==> has_keyword(metadata.entries@, w) by {
            assert(views(set@).to_set().contains(w) == views(set@).contains(w));
        }
    }
    r
}

// ---------------------------------------------------------------------------
// Format allow-lists
// ---------------------------------------------------------------------------

pub open spec fn video_extension(e: Seq<char>) -> bool {
    ||| e == "mov"@
    ||| e == "mp4"@
    ||| e == "m4v"@
    ||| e == "avi"@
    ||| e == "mkv"@
    ||| e == "mts"@
    ||| e == "m2ts"@
    ||| e == "mxf"@
    ||| e == "webm"@
    ||| e == "3gp"@
    ||| e == "mpg"@
    ||| e == "mpeg"@
}

pub open spec fn photo_extension(e: Seq<char>) -> bool {
    ||| e == "jpg"@
    ||| e == "jpeg"@
    ||| e == "tif"@
    ||| e == "tiff"@
    ||| e == "dng"@
    ||| e == "png"@
    ||| e == "heic"@
    ||| e == "heif"@
    ||| e == "webp"@
    ||| e == "avif"@
    ||| e == "psd"@
    ||| e == "cr2"@
    ||| e == "cr3"@
    ||| e == "crw"@
    ||| e == "nef"@
    ||| e == "nrw"@
    ||| e == "arw"@
    ||| e == "sr2"@
    ||| e == "srf"@
    ||| e == "raf"@
    ||| e == "orf"@
    ||| e == "rw2"@
    ||| e == "raw"@
    ||| e == "pef"@
    ||| e == "ptx"@
    ||| e == "rwl"@
    ||| e == "3fr"@
    ||| e == "fff"@
    ||| e == "iiq"@
    ||| e == "mos"@
    ||| e == "mrw"@
    ||| e == "srw"@
    ||| e == "x3f"@
    ||| e == "erf"@
    ||| e == "kdc"@
    ||| e == "dcr"@
}

pub open spec fn embeddable_extension(e: Seq<char>) -> bool {
    ||| e == "jpg"@
    ||| e == "jpeg"@
    ||| e == "dng"@
    ||| e == "png"@
    ||| e == "heic"@
    ||| e == "heif"@
    ||| e == "webp"@
}

/// Whether the (lower-case) extension is on the video allow-list.
pub fn is_video(extension: &str) -> (r: bool)
    ensures
        r == video_extension(extension@),
{
    let e = extension;
    strings_equal(e, "mov") || strings_equal(e, "mp4") || strings_equal(e, "m4v")
        || strings_equal(e, "avi") || strings_equal(e, "mkv") || strings_equal(e, "mts")
        || strings_equal(e, "m2ts") || strings_equal(e, "mxf") || strings_equal(e, "webm")
        || strings_equal(e, "3gp") || strings_equal(e, "mpg") || strings_equal(e, "mpeg")
}

/// Whether the (lower-case) extension is on the photo allow-list.
pub fn is_photo(extension: &str) -> (r: bool)
    ensures
        r == photo_extension(extension@),
{
    let e = extension;
    strings_equal(e, "jpg") || strings_equal(e, "jpeg") || strings_equal(e, "tif")
        || strings_equal(e, "tiff") || strings_equal(e, "dng") || strings_equal(e, "png")
        || strings_equal(e, "heic") || strings_equal(e, "heif") || strings_equal(e, "webp")
        || strings_equal(e, "avif") || strings_equal(e, "psd") || strings_equal(e, "cr2")
        || strings_equal(e, "cr3") || strings_equal(e, "crw") || strings_equal(e, "nef")
        || strings_equal(e, "nrw") || strings_equal(e, "arw") || strings_equal(e, "sr2")
        || strings_equal(e, "srf") || strings_equal(e, "raf") || strings_equal(e, "orf")
        || strings_equal(e, "rw2") || strings_equal(e, "raw") || strings_equal(e, "pef")
        || strings_equal(e, "ptx") || strings_equal(e, "rwl") || strings_equal(e, "3fr")
        || strings_equal(e, "fff") || strings_equal(e, "iiq") || strings_equal(e, "mos")
        || strings_equal(e, "mrw") || strings_equal(e, "srw") || strings_equal(e, "x3f")
        || strings_equal(e, "erf") || strings_equal(e, "kdc") || strings_equal(e, "dcr")
}

/// Whether keywords may be embedded into output copies with this extension.
pub fn can_embed(extension: &str) -> (r: bool)
    ensures
        r == embeddable_extension(extension@),
{
    let e = extension;
    strings_equal(e, "jpg") || strings_equal(e, "jpeg") || strings_equal(e, "dng")
        || strings_equal(e, "png") || strings_equal(e, "heic") || strings_equal(e, "heif")
        || strings_equal(e, "webp")
}

/// What the library supports for one extension.
#[derive(Debug, Clone)]
pub struct FormatSupport {
    pub extension: String,
    pub read: bool,
    pub embed: bool,
    pub preview: String,
}

/// The extensions that are on one of the allow-lists, in the given order.
pub open spec fn allowed_extensions(exts: Seq<Seq<char>>) -> Seq<Seq<char>>
    decreases exts.len(),
{
    if exts.len() == 0 {
        Seq::empty()
    } else {
        let rest = allowed_extensions(exts.drop_last());
        if photo_extension(exts.last()) || video_extension(exts.last()) {
            rest.push(exts.last())
        } else {
            rest
        }
    }
}

/// The supported formats among the extensions that the metadata tool lists.
pub fn capabilities(extensions: &Vec<String>) -> (r: Vec<FormatSupport>)
    ensures
        r@.len() == allowed_extensions(string_views(extensions@)).len(),
        forall|k: int|
            0 <= k < r@.len() ==> {
                let f = #[trigger] r@[k];
                &&& f.extension@ == allowed_extensions(string_views(extensions@))[k]
                &&& f.read
                &&& f.embed == embeddable_extension(f.extension@)
                &&& f.preview@ == "metadata-only"@
            },
{
    let ghost ev = string_views(extensions@);
    let mut r: Vec<FormatSupport> = Vec::new();
    let mut i: usize = 0;
    while i < extensions.len()
        invariant
            ev == string_views(extensions@),
            i <= extensions.len(),
            r@.len() == allowed_extensions(ev.take(i as int)).len(),
            forall|k: int|
                0 <= k < r@.len() ==> {
                    let f = #[trigger] r@[k];
                    &&& f.extension@ == allowed_extensions(ev.take(i as int))[k]
                    &&& f.read
                    &&& f.embed == embeddable_extension(f.extension@)
                    &&& f.preview@ == "metadata-only"@
                },
        decreases extensions.len() - i,
    {
        let e: &String = &extensions[i];
        proof {
            assert(ev.take(i + 1).drop_last() =~= ev.take(i as int));
            assert(ev.take(i + 1).last() == e@);
        }
        if is_photo(e.as_str()) || is_video(e.as_str()) {
            let f = FormatSupport {
                extension: copy_string(e),
                read: true,
                embed: can_embed(e.as_str()),
                preview: string_of(&chars_of("metadata-only")),
            };
            r.push(f);
        }
        i = i + 1;
    }
    assert(ev.take(i as int) =~= ev);
    r
}

// ---------------------------------------------------------------------------
// The line protocol of the metadata tool
// ---------------------------------------------------------------------------

/// What the metadata tool exchange can refuse.
#[derive(Debug, Clone)]
pub enum ToolError {
    /// An argument holds a line break, which the line protocol cannot carry.
    NewlineInArgument,
    /// The tool answered with no metadata object.
    EmptyResponse,
    /// The tool reported an error for the file.
    Reported(String),
    /// A keyword was not found when the written file was read back.
    KeywordMissing(String),
    /// A path cannot be handed to the tool.
    Path(PathError),
}

pub open spec fn execute_marker(sequence: nat) -> Seq<char> {
    "-execute"@ + decimal(sequence)
}

pub open spec fn ready_marker(sequence: nat) -> Seq<char> {
    "{ready"@ + decimal(sequence) + "}"@
}

/// The lines that submit one command: the arguments, then the execute marker
/// that carries the command's sequence number.
pub fn command_lines(args: &Vec<String>, sequence: u64) -> (r: Result<Vec<String>, ToolError>)
    ensures
        r is Err <==> exists|k: int| 0 <= k < args@.len() && has_newline(#[trigger] args@[k]@),
        r matches Err(e) ==> e is NewlineInArgument,
        r matches Ok(lines) ==> string_views(lines@) == string_views(args@).push(
            execute_marker(sequence as nat),
        ),
{
    let mut lines: Vec<String> = Vec::new();
    let mut i: usize = 0;
    while i < args.len()
        invariant
            i <= args.len(),
            forall|k: int| 0 <= k < i ==> !has_newline(#[trigger] args@[k]@),
            string_views(lines@) == string_views(args@).take(i as int),
        decreases args.len() - i,
    {
        let a = chars_of(args[i].as_str());
        if contains_char(&a, '\n') || contains_char(&a, '\r') {
            return Err(ToolError::NewlineInArgument);
        }
        let ghost l0 = lines@;
        lines.push(string_of(&a));
        assert(string_views(lines@) =~= string_views(args@).take(i + 1)) by {
            assert(string_views(lines@) =~= string_views(l0).push(a@));
        }
        i = i + 1;
    }
    let mut m = chars_of("-execute");
    append_chars(&mut m, &decimal_chars(sequence));
    let ghost l0 = lines@;
    lines.push(string_of(&m));
    assert(string_views(args@).take(i as int) =~= string_views(args@));
    assert(string_views(lines@) =~= string_views(l0).push(m@));
    Ok(lines)
}

/// The line with which the tool ends its answer to a command.
pub fn ready_line(sequence: u64) -> (r: String)
    ensures
        r@ == ready_marker(sequence as nat),
{
    let mut m = chars_of("{ready");
    append_chars(&mut m, &decimal_chars(sequence));
    append_str(&mut m, "}");
    string_of(&m)
}

pub open spec fn trim_end_white(s: Seq<char>) -> Seq<char> {
    s.take(s.len() - trail_count(s, white_pred()))
}

/// Takes one line of the tool's answer: `true` when it ends the answer
/// (trailing whitespace aside, it is the ready line); otherwise the line and
/// a line feed are appended to `answer`.
pub fn answer_line(answer: &mut String, line: &str, sequence: u64) -> (done: bool)
    ensures
        done == (trim_end_white(line@) == ready_marker(sequence as nat)),
        done ==> final(answer)@ == old(answer)@,
        !done ==> final(answer)@ == old(answer)@ + line@ + seq!['\n'],
{
    let v = chars_of(line);
    let n: usize = v.len();
    let mut j: usize = n;
    while j > 0 && crate::text::char_is_white(v[j - 1])
        invariant
            n == v.len(),
            j <= n,
            forall|k: int| j <= k < n ==> crate::text::is_white(#[trigger] v@[k]),
        decreases j,
    {
        j = j - 1;
    }
    proof {
        crate::text::lemma_trail_count_unique(v@, white_pred(), j as int);
    }
    let t = crate::text::slice_chars(&v, 0, j);
    assert(t@ =~= trim_end_white(line@));
    let ready = chars_of(ready_line(sequence).as_str());
    if chars_equal(&t, &ready) {
        true
    } else {
        let mut a = chars_of(answer.as_str());
        append_chars(&mut a, &v);
        a.push('\n');
        *answer = string_of(&a);
        false
    }
}

/// The arguments that read one file's metadata as JSON.
pub open spec fn read_args_spec(path: Seq<char>) -> Seq<Seq<char>> {
    seq!["-json"@, "-G1"@, "-n"@, "-charset"@, "filename=UTF8"@, path]
}

pub fn read_args(path: &str) -> (r: Result<Vec<String>, PathError>)
    ensures
        r is Err <==> has_newline(path@),
        r matches Ok(a) ==> string_views(a@) == read_args_spec(path@),
{
    let p = path_string(path)?;
    let mut a: Vec<String> = Vec::new();
    a.push(string_of(&chars_of("-json")));
    a.push(string_of(&chars_of("-G1")));
    a.push(string_of(&chars_of("-n")));
    a.push(string_of(&chars_of("-charset")));
    a.push(string_of(&chars_of("filename=UTF8")));
    a.push(p);
    assert(string_views(a@) =~= read_args_spec(path@));
    Ok(a)
}

/// The metadata of a read: the first object of the answer, unless the tool
/// reported an error for it.
pub fn first_reading(items: Vec<Metadata>) -> (r: Result<Metadata, ToolError>)
    ensures
        items@.len() == 0 ==> (r matches Err(e) && e is EmptyResponse),
        items@.len() > 0 ==> match lookup(items@[0].entries@, seq!["Error"@]) {
            Some(msg) => (r matches Err(e) && (e matches ToolError::Reported(m) && m@ == msg)),
            None => (r matches Ok(m) && m == items@[0]),
        },
{
    let mut items = items;
    if items.len() == 0 {
        return Err(ToolError::EmptyResponse);
    }
    let first = items.swap_remove(0);
    match get_one(&first, "Error") {
        Some(msg) => Err(ToolError::Reported(msg)),
        None => Ok(first),
    }
}

/// `-XMP-dc:Subject+=` arguments, one per keyword.
pub open spec fn subject_args(ks: Seq<Seq<char>>) -> Seq<Seq<char>>
    decreases ks.len(),
{
    if ks.len() == 0 {
        Seq::empty()
    } else {
        subject_args(ks.drop_last()).push("-XMP-dc:Subject+="@ + ks.last())
    }
}

/// `-IPTC:Keywords+=` arguments, one per keyword of at most 64 bytes.
pub open spec fn iptc_keyword_args(ks: Seq<Seq<char>>) -> Seq<Seq<char>>
    decreases ks.len(),
{
    if ks.len() == 0 {
        Seq::empty()
    } else if utf8_len(ks.last()) <= 64 {
        iptc_keyword_args(ks.drop_last()).push("-IPTC:Keywords+="@ + ks.last())
    } else {
        iptc_keyword_args(ks.drop_last())
    }
}

/// The arguments that replace a file's keywords: always the XMP subject, and,
/// when `iptc` is set, the IPTC keywords of at most 64 bytes each.
pub open spec fn keyword_args_spec(path: Seq<char>, keywords: Seq<Seq<char>>, iptc: bool) -> Seq<
    Seq<char>,
> {
    let head = seq!["-overwrite_original"@, "-charset"@, "filename=UTF8"@, "-XMP-dc:Subject="@];
    let iptc_part = if iptc {
        seq!["-IPTC:CodedCharacterSet=UTF8"@, "-IPTC:Keywords="@] + iptc_keyword_args(keywords)
    } else {
        Seq::empty()
    };
    head + subject_args(keywords) + iptc_part + seq![path]
}

fn prefixed(prefix: &str, v: &String) -> (r: String)
    ensures
        r@ == prefix@ + v@,
{
    let mut a = chars_of(prefix);
    append_str(&mut a, v.as_str());
    string_of(&a)
}

pub fn keyword_args(path: &str, keywords: &Vec<String>, iptc: bool) -> (r: Result<
    Vec<String>,
    PathError,
>)
    ensures
        r is Err <==> has_newline(path@),
        r matches Ok(a) ==> string_views(a@) == keyword_args_spec(
            path@,
            string_views(keywords@),
            iptc,
        ),
{
    let p = path_string(path)?;
    let ghost kv = string_views(keywords@);
    let mut a: Vec<String> = Vec::new();
    a.push(string_of(&chars_of("-overwrite_original")));
    a.push(string_of(&chars_of("-charset")));
    a.push(string_of(&chars_of("filename=UTF8")));
    a.push(string_of(&chars_of("-XMP-dc:Subject=")));
    let ghost head = string_views(a@);
    assert(head =~= seq!["-overwrite_original"@, "-charset"@, "filename=UTF8"@, "-XMP-dc:Subject="@]);
    let mut i: usize = 0;
    assert(kv.take(0) =~= Seq::<Seq<char>>::empty());
    assert(string_views(a@) =~= head + subject_args(kv.take(0)));
    while i < keywords.len()
        invariant
            kv == string_views(keywords@),
            i <= keywords.len(),
            string_views(a@) == head + subject_args(kv.take(i as int)),
        decreases keywords.len() - i,
    {
        let ghost a0 = string_views(a@);
        let x = prefixed("-XMP-dc:Subject+=", &keywords[i]);
        a.push(x);
        proof {
            assert(kv.take(i + 1).drop_last() =~= kv.take(i as int));
            assert(kv.take(i + 1).last() == keywords@[i as int]@);
            assert(string_views(a@) =~= a0.push(x@));
            assert(string_views(a@) =~= head + subject_args(kv.take(i + 1)));
        }
        i = i + 1;
    }
    assert(kv.take(i as int) =~= kv);
    let ghost mid = string_views(a@);
    if iptc {
        a.push(string_of(&chars_of("-IPTC:CodedCharacterSet=UTF8")));
        a.push(string_of(&chars_of("-IPTC:Keywords=")));
        let ghost mid2 = string_views(a@);
        assert(mid2 =~= mid + seq!["-IPTC:CodedCharacterSet=UTF8"@, "-IPTC:Keywords="@]);
        let mut j: usize = 0;
        assert(mid2 =~= mid2 + iptc_keyword_args(kv.take(0)));
        while j < keywords.len()
            invariant
                kv == string_views(keywords@),
                j <= keywords.len(),
                string_views(a@) == mid2 + iptc_keyword_args(kv.take(j as int)),
            decreases keywords.len() - j,
        {
            let kc = chars_of(keywords[j].as_str());
            proof {
                assert(kv.take(j + 1).drop_last() =~= kv.take(j as int));
                assert(kv.take(j + 1).last() == kc@);
            }
            if utf8_len_capped(&kc, 64) <= 64 {
                let ghost a0 = string_views(a@);
                let x = prefixed("-IPTC:Keywords+=", &keywords[j]);
                a.push(x);
                assert(string_views(a@) =~= a0.push(x@));
                assert(string_views(a@) =~= mid2 + iptc_keyword_args(kv.take(j + 1)));
            }
            j = j + 1;
        }
        assert(kv.take(j as int) =~= kv);
    }
    let ghost before_path = string_views(a@);
    a.push(p);
    assert(string_views(a@) =~= before_path.push(path@));
    assert(string_views(a@) =~= keyword_args_spec(path@, kv, iptc));
    Ok(a)
}

/// The first expected keyword that the read-back keywords lack, if any.
pub fn missing_keyword(expected: &Vec<String>, actual: &Vec<String>) -> (r: Option<String>)
    ensures
        r is None <==> forall|k: int| 0 <= k < expected@.len() ==> string_views(actual@).contains(
            #[trigger] expected@[k]@,
        ),
        r matches Some(m) ==> exists|k: int|
            0 <= k < expected@.len() && #[trigger] expected@[k]@ == m@ && !string_views(
                actual@,
            ).contains(m@) && forall|j: int|
                0 <= j < k ==> string_views(actual@).contains(#[trigger] expected@[j]@),
{
    let mut i: usize = 0;
    while i < expected.len()
        invariant
            i <= expected.len(),
            forall|k: int| 0 <= k < i ==> string_views(actual@).contains(#[trigger] expected@[k]@),
        decreases expected.len() - i,
    {
        let e = chars_of(expected[i].as_str());
        let mut found: bool = false;
        let mut j: usize = 0;
        while j < actual.len()
            invariant
                j <= actual.len(),
                found == exists|m: int| 0 <= m < j && (#[trigger] actual@[m])@ == e@,
            decreases actual.len() - j,
        {
            let a = chars_of(actual[j].as_str());
            if chars_equal(&a, &e) {
                found = true;
            }
            j = j + 1;
        }
        proof {
            if found {
                let m = choose|m: int| 0 <= m < j && (#[trigger] actual@[m])@ == e@;
                assert(string_views(actual@)[m] == e@);
            } else {
                if string_views(actual@).contains(e@) {
                    let m = choose|m: int| 0 <= m < string_views(actual@).len() && string_views(actual@)[m] == e@;
                    assert(actual@[m]@ == e@);
                }
            }
        }
        if !found {
            return Some(string_of(&e));
        }
        i = i + 1;
    }
    None
}

/// The arguments that copy a file's metadata into a new XMP sidecar.
pub open spec fn xmp_args_spec(source: Seq<char>, destination: Seq<char>) -> Seq<Seq<char>> {
    seq!["-tagsFromFile"@, source, "-all:all"@, "-o"@, destination]
}

pub fn xmp_args(source: &str, destination: &str) -> (r: Result<Vec<String>, PathError>)
    ensures
        r is Err <==> has_newline(source@) || has_newline(destination@),
        r matches Ok(a) ==> string_views(a@) == xmp_args_spec(source@, destination@),
{
    let s = path_string(source)?;
    let d = path_string(destination)?;
    let mut a: Vec<String> = Vec::new();
    a.push(string_of(&chars_of("-tagsFromFile")));
    a.push(s);
    a.push(string_of(&chars_of("-all:all")));
    a.push(string_of(&chars_of("-o")));
    a.push(d);
    assert(string_views(a@) =~= xmp_args_spec(source@, destination@));
    Ok(a)
}

// ---------------------------------------------------------------------------
// The list of formats the tool reads
// ---------------------------------------------------------------------------

/// `s[a..b]` is one whitespace-separated word of `s`.
pub open spec fn is_word(s: Seq<char>, a: int, b: int) -> bool {
    &&& 0 <= a < b <= s.len()
    &&& forall|k: int| a <= k < b ==> !is_white(#[trigger] s[k])
    &&& (a == 0 || is_white(s[a - 1]))
    &&& (b == s.len() || is_white(s[b]))
}

pub open spec fn all_alnum(t: Seq<char>) -> bool {
    forall|k: int| 0 <= k < t.len() ==> is_ascii_alnum(#[trigger] t[k])
}

/// The word `s[a..b]` is made of ASCII letters and digits and reads `w` in
/// lower case.
pub open spec fn word_gives(s: Seq<char>, a: int, b: int, w: Seq<char>) -> bool {
    is_word(s, a, b) && all_alnum(s.subrange(a, b)) && ascii_lower_seq(s.subrange(a, b)) == w
}

/// The extensions in the tool's list of readable formats: its words that are
/// made of ASCII letters and digits, in lower case, once each, ascending.
pub fn parse_extensions(listing: &str) -> (r: Vec<String>)
    ensures
        sorted_strict(string_views(r@)),
        forall|w: Seq<char>| string_views(r@).contains(w) <==> exists|a: int, b: int|
            #[trigger] word_gives(listing@, a, b, w),
{
    let v = chars_of(listing);
    let n: usize = v.len();
    let mut set: Vec<Vec<char>> = Vec::new();
    let mut i: usize = 0;
    while i < n
        invariant
            n == v@.len(),
            v@ == listing@,
            i <= n,
            i == 0 || i == n || is_white(v@[i - 1]),
            sorted_strict(views(set@)),
            forall|w: Seq<char>| views(set@).to_set().contains(w) <==> exists|a: int, b: int|
                #[trigger] word_gives(v@, a, b, w) && b <= i,
        decreases n - i,
    {
        let ghost s0 = views(set@).to_set();
        if char_is_white(v[i]) {
            proof {
                assert forall|w: Seq<char>| s0.contains(w) <==> exists|a: int, b: int|
                    #[trigger] word_gives(v@, a, b, w) && b <= i + 1 by {
                    if exists|a: int, b: int| #[trigger] word_gives(v@, a, b, w) && b <= i + 1 {
                        let (a, b) = choose|a: int, b: int| #[trigger] word_gives(v@, a, b, w) && b <= i + 1;
                        if b == i + 1 {
                            assert(!is_white(v@[i as int]));
                        }
                        assert(word_gives(v@, a, b, w) && b <= i);
                    }
                }
            }
            i = i + 1;
        } else {
            let mut j: usize = i + 1;
            while j < n && !char_is_white(v[j])
                invariant
                    n == v@.len(),
                    i < j <= n,
                    forall|k: int| i <= k < j ==> !is_white(#[trigger] v@[k]),
                decreases n - j,
            {
                j = j + 1;
            }
            let word = slice_chars(&v, i, j);
            assert(is_word(v@, i as int, j as int));
            let mut alnum: bool = true;
            let mut k: usize = 0;
            while k < word.len()
                invariant
                    k <= word@.len(),
                    alnum == forall|m: int| 0 <= m < k ==> is_ascii_alnum(#[trigger] word@[m]),
                decreases word.len() - k,
            {
                if !char_is_ascii_alnum(word[k]) {
                    alnum = false;
                }
                k = k + 1;
            }
            let lower = ascii_lower_chars(&word);
            if alnum {
                sorted_insert(&mut set, lower);
            }
            let next: usize = if j < n { j + 1 } else { j };
            proof {
                let wd = v@.subrange(i as int, j as int);
                assert(word@ == wd);
                assert forall|w: Seq<char>| views(set@).to_set().contains(w) <==> exists|a: int, b: int|
                    #[trigger] word_gives(v@, a, b, w) && b <= next by {
                    if exists|a: int, b: int| #[trigger] word_gives(v@, a, b, w) && b <= next {
                        let (a, b) = choose|a: int, b: int| #[trigger] word_gives(v@, a, b, w) && b <= next;
                        if b > i {
                            if a < i {
                                assert(!is_white(v@[i - 1]));
                            }
                            if a > i {
                                assert(!is_white(v@[a - 1]));
                            }
                            if b > j {
                                assert(!is_white(v@[j as int]));
                            }
                            if b < j {
                                assert(!is_white(v@[b]));
                            }
                            assert(a == i && b == j);
                            assert(alnum);
                        } else {
                            assert(s0.contains(w));
                        }
                    }
                    if views(set@).to_set().contains(w) && !s0.contains(w) {
                        assert(alnum && w == lower@);
                        assert(word_gives(v@, i as int, j as int, w));
                    }
                    if s0.contains(w) {
                        let (a, b) = choose|a: int, b: int| #[trigger] word_gives(v@, a, b, w) && b <= i;
                        assert(word_gives(v@, a, b, w) && b <= next);
                    }
                }
                if j < n {
                    assert(is_white(v@[j as int]));
                }
            }
            i = next;
        }
    }
    let r = strings_of(&set);
    proof {
        assert forall|w: Seq<char>| string_views(r@).contains(w) <==> exists|a: int, b: int|
            #[trigger] word_gives(listing@, a, b, w) by {
            assert(views(set@).to_set().contains(w) == views(set@).contains(w));
            if exists|a: int, b: int| #[trigger] word_gives(listing@, a, b, w) {
                let (a, b) = choose|a: int, b: int| #[trigger] word_gives(listing@, a, b, w);
                assert(word_gives(v@, a, b, w) && b <= i);
            }
        }
    }
    r
}

} // verus!
