//! Recipes: how a file's destination, name and keywords follow from its
//! metadata and from the user's choices.
use vstd::prelude::*;
use crate::external::{chrono_date, chrono_date_time, nfc, nfc_of, parse_date, parse_date_time};
use crate::metadata::{get, get_one, has_keyword, keywords_from, lookup, str_views, Metadata};
use crate::paths::{components, extension_chars, extension_of, file_stem_chars, file_stem_of,
    parent_name_chars, parent_name_of, path_components};
use crate::text::{
    append_chars, append_str, byte_prefix, char_is_control, chars_eq_ignore_ascii_case,
    chars_equal, chars_of, contains_char, copy_string, decimal, decimal_chars, eq_ignore_ascii_case,
    insert_strings, is_ascii_alnum, remove_empty,
    is_control, prefix_bytes, replace_all, replace_chars, slice_chars, sorted_insert,
    sorted_strict, split_by, split_chars, string_of, string_views, strings_equal, strings_of,
    trim_dot_chars, trim_dots, trim_white, trim_white_chars, utf8_len, utf8_len_capped, views,
    zero_padded, zero_padded_chars, lemma_split_by_nonempty,
};

verus! {

// ---------------------------------------------------------------------------
// Capture times
// ---------------------------------------------------------------------------

/// A calendar date and clock time, as recorded by the camera (no time zone).
#[derive(Debug, Clone, Copy, PartialEq, Eq, Structural)]
pub struct CaptureTime {
    pub year: i32,
    pub month: u32,
    pub day: u32,
    pub hour: u32,
    pub minute: u32,
    pub second: u32,
    /// Nanoseconds; one second or more marks a leap second.
    pub nanosecond: u32,
}

// ---------------------------------------------------------------------------
// Recipes
// ---------------------------------------------------------------------------

/// The user's choices for sorting, naming and tagging.
#[derive(Debug, Clone)]
pub struct Recipe {
    pub version: u32,
    pub operation: String,
    pub folder_template: String,
    pub filename_template: String,
    pub photo_folder: String,
    pub video_folder: String,
    pub separate_video: bool,
    pub project: String,
    pub folder_tags: bool,
    /// Empty means all ancestors below each selected source, including its name.
    pub selected_folders: Vec<String>,
    pub excluded_folders: Vec<String>,
    pub keywords: Vec<String>,
    pub camera_tags: bool,
    pub filesystem_date_fallback: bool,
    /// Tag each file with the name of the folder directly below an `Events`
    /// folder.
    pub event_folder_tags: bool,
    /// Skip web and Instagram variants that have a full-resolution
    /// counterpart.
    pub skip_lower_resolution_variants: bool,
}

/// Why a recipe, or a destination computed with it, is refused.
#[derive(Debug, Clone)]
pub enum RecipeError {
    Operation,
    Version(u32),
    FolderName,
    FolderTemplate,
    FilenameTemplate,
    Keywords,
    /// The rendered template still holds a brace.
    MalformedToken(String),
}

/// `RecipeError` with the rendered text as characters.
pub enum RecipeFault {
    Operation,
    Version(u32),
    FolderName,
    FolderTemplate,
    FilenameTemplate,
    Keywords,
    MalformedToken(Seq<char>),
}

impl View for RecipeError {
    type V = RecipeFault;

    open spec fn view(&self) -> RecipeFault {
        match self {
            RecipeError::Operation => RecipeFault::Operation,
            RecipeError::Version(v) => RecipeFault::Version(*v),
            RecipeError::FolderName => RecipeFault::FolderName,
            RecipeError::FolderTemplate => RecipeFault::FolderTemplate,
            RecipeError::FilenameTemplate => RecipeFault::FilenameTemplate,
            RecipeError::Keywords => RecipeFault::Keywords,
            RecipeError::MalformedToken(s) => RecipeFault::MalformedToken(s@),
        }
    }
}

impl RecipeError {
    /// The message shown to the user.
    pub fn message(&self) -> (r: String)
        ensures
            r@ == match self@ {
                RecipeFault::Operation => "Operation must be copy or move"@,
                RecipeFault::Version(v) => "Unsupported recipe version "@ + decimal(v as nat),
                RecipeFault::FolderName => "Photo/video folder names must be single safe directory names"@,
                RecipeFault::FolderTemplate => "Folder template must be a safe relative path"@,
                RecipeFault::FilenameTemplate => "Filename template cannot contain directories"@,
                RecipeFault::Keywords => "Keywords must be nonempty single lines"@,
                RecipeFault::MalformedToken(t) => "Unknown or malformed recipe token: "@ + t,
            },
    {
        match self {
            RecipeError::Operation => string_of(&chars_of("Operation must be copy or move")),
            RecipeError::Version(v) => {
                let mut m = chars_of("Unsupported recipe version ");
                append_chars(&mut m, &decimal_chars(*v as u64));
                string_of(&m)
            },
            RecipeError::FolderName => string_of(
                &chars_of("Photo/video folder names must be single safe directory names"),
            ),
            RecipeError::FolderTemplate => string_of(
                &chars_of("Folder template must be a safe relative path"),
            ),
            RecipeError::FilenameTemplate => string_of(
                &chars_of("Filename template cannot contain directories"),
            ),
            RecipeError::Keywords => string_of(&chars_of("Keywords must be nonempty single lines")),
            RecipeError::MalformedToken(s) => {
                let mut m = chars_of("Unknown or malformed recipe token: ");
                append_str(&mut m, s.as_str());
                string_of(&m)
            },
        }
    }
}

pub open spec fn default_excluded() -> Seq<Seq<char>> {
    seq!["DCIM"@, "exports"@, "Photos"@, "Pictures"@]
}

impl Recipe {
    /// The recipe as shipped.
    pub open spec fn is_default(self) -> bool {
        &&& self.version == 1
        &&& self.operation@ == "copy"@
        &&& self.folder_template@ == "{year}/{date}"@
        &&& self.filename_template@ == "{stem}"@
        &&& self.photo_folder@ == "Photos"@
        &&& self.video_folder@ == "Video"@
        &&& self.separate_video
        &&& self.project@.len() == 0
        &&& self.folder_tags
        &&& self.selected_folders@.len() == 0
        &&& string_views(self.excluded_folders@) == default_excluded()
        &&& self.keywords@.len() == 0
        &&& !self.camera_tags
        &&& !self.filesystem_date_fallback
        &&& self.event_folder_tags
        &&& !self.skip_lower_resolution_variants
    }

    /// The recipe as shipped.
    pub fn shipped() -> (r: Recipe)
        ensures
            r.is_default(),
    {
        let mut excluded: Vec<String> = Vec::new();
        excluded.push(string_of(&chars_of("DCIM")));
        excluded.push(string_of(&chars_of("exports")));
        excluded.push(string_of(&chars_of("Photos")));
        excluded.push(string_of(&chars_of("Pictures")));
        assert(string_views(excluded@) =~= default_excluded());
        Recipe {
            version: 1,
            operation: string_of(&chars_of("copy")),
            folder_template: string_of(&chars_of("{year}/{date}")),
            filename_template: string_of(&chars_of("{stem}")),
            photo_folder: string_of(&chars_of("Photos")),
            video_folder: string_of(&chars_of("Video")),
            separate_video: true,
            project: String::new(),
            folder_tags: true,
            selected_folders: Vec::new(),
            excluded_folders: excluded,
            keywords: Vec::new(),
            camera_tags: false,
            filesystem_date_fallback: false,
            event_folder_tags: true,
            skip_lower_resolution_variants: false,
        }
    }
}

impl Default for Recipe {
    fn default() -> (r: Recipe)
        ensures
            r.is_default(),
    {
        Recipe::shipped()
    }
}

// ---------------------------------------------------------------------------
// Cleaning names
// ---------------------------------------------------------------------------

/// Characters that may not appear in a file or folder name.
pub open spec fn forbidden_char(c: char) -> bool {
    c == '/' || c == '\\' || c == ':' || c == '*' || c == '?' || c == '"' || c == '<' || c == '>'
        || c == '|'
}

pub open spec fn sanitize_char(c: char) -> char {
    if is_control(c) || forbidden_char(c) {
        '_'
    } else {
        c
    }
}

/// The cleaning of a name that is already in NFC: control and reserved
/// characters replaced by `_`, whitespace then dots trimmed from both ends,
/// at most 120 characters, and `Unknown` when nothing is left.
pub open spec fn clean_normalized_spec(n: Seq<char>) -> Seq<char> {
    let s = n.map_values(|c: char| sanitize_char(c));
    let t = trim_dots(trim_white(s));
    let u = if t.len() > 120 {
        t.take(120)
    } else {
        t
    };
    if u.len() == 0 {
        "Unknown"@
    } else {
        u
    }
}

/// A safe single name: the text normalized to NFC, then cleaned.
pub open spec fn clean_spec(value: Seq<char>) -> Seq<char> {
    clean_normalized_spec(nfc_of(value))
}

fn sanitize(c: char) -> (r: char)
    ensures
        r == sanitize_char(c),
{
    if char_is_control(c) || c == '/' || c == '\\' || c == ':' || c == '*' || c == '?' || c
        == '"' || c == '<' || c == '>' || c == '|' {
        '_'
    } else {
        c
    }
}

/// Cleans a name that is already in NFC.
pub fn clean_normalized(normalized: &str) -> (r: String)
    ensures
        r@ == clean_normalized_spec(normalized@),
{
    let v = chars_of(normalized);
    let mut s: Vec<char> = Vec::new();
    let mut i: usize = 0;
    while i < v.len()
        invariant
            i <= v.len(),
            s@ == v@.take(i as int).map_values(|c: char| sanitize_char(c)),
        decreases v.len() - i,
    {
        s.push(sanitize(v[i]));
        i = i + 1;
        assert(s@ =~= v@.take(i as int).map_values(|c: char| sanitize_char(c)));
    }
    assert(v@.take(i as int) =~= v@);
    let t1 = trim_white_chars(&s);
    let t = trim_dot_chars(&t1);
    let u = if t.len() > 120 {
        slice_chars(&t, 0, 120)
    } else {
        t
    };
    assert(t@.len() > 120 ==> u@ =~= t@.take(120));
    if u.len() == 0 {
        string_of(&chars_of("Unknown"))
    } else {
        string_of(&u)
    }
}

/// Turns any text into a safe single file or folder name.
pub fn clean(value: &str) -> (r: String)
    ensures
        r@ == clean_spec(value@),
{
    let n = nfc(value);
    clean_normalized(n.as_str())
}

// ---------------------------------------------------------------------------
// Rendering templates
// ---------------------------------------------------------------------------

pub open spec fn braced(name: Seq<char>) -> Seq<char> {
    seq!['{'] + name + seq!['}']
}

pub open spec fn pair_views(v: Seq<(String, String)>) -> Seq<(Seq<char>, Seq<char>)> {
    v.map_values(|p: (String, String)| (p.0@, p.1@))
}

/// Every `{name}` replaced by its value, one token after the other.
pub open spec fn substitute(s: Seq<char>, tokens: Seq<(Seq<char>, Seq<char>)>) -> Seq<char>
    decreases tokens.len(),
{
    if tokens.len() == 0 {
        s
    } else {
        substitute(replace_all(s, braced(tokens[0].0), tokens[0].1), tokens.drop_first())
    }
}

pub open spec fn has_brace(s: Seq<char>) -> bool {
    s.contains('{') || s.contains('}')
}

/// The rendered template, or (as the error) the rendering that still holds a brace.
pub open spec fn render_spec(template: Seq<char>, tokens: Seq<(Seq<char>, Seq<char>)>) -> Result<
    Seq<char>,
    Seq<char>,
> {
    let r = substitute(template, tokens);
    if has_brace(r) {
        Err(r)
    } else {
        Ok(r)
    }
}

/// Replaces each `{name}` token of the template by its value.
pub fn render(template: &str, tokens: &Vec<(String, String)>) -> (r: Result<String, RecipeError>)
    ensures
        match render_spec(template@, pair_views(tokens@)) {
            Ok(s) => r matches Ok(x) && x@ == s,
            Err(s) => r matches Err(e) && e@ == RecipeFault::MalformedToken(s),
        },
{
    let ghost tv = pair_views(tokens@);
    let mut cur = chars_of(template);
    let mut i: usize = 0;
    assert(tv.skip(0) =~= tv);
    while i < tokens.len()
        invariant
            tv == pair_views(tokens@),
            i <= tokens.len(),
            substitute(template@, tv) == substitute(cur@, tv.skip(i as int)),
        decreases tokens.len() - i,
    {
        let (name, value) = &tokens[i];
        let mut pat: Vec<char> = Vec::new();
        pat.push('{');
        append_str(&mut pat, name.as_str());
        pat.push('}');
        assert(pat@ =~= braced(name@));
        let rep = chars_of(value.as_str());
        let next = replace_chars(&cur, &pat, &rep);
        proof {
            let rest = tv.skip(i as int);
            assert(rest[0] == (name@, value@));
            assert(rest.drop_first() =~= tv.skip(i + 1));
        }
        cur = next;
        i = i + 1;
    }
    assert(tv.skip(i as int) =~= Seq::<(Seq<char>, Seq<char>)>::empty());
    if contains_char(&cur, '{') || contains_char(&cur, '}') {
        Err(RecipeError::MalformedToken(string_of(&cur)))
    } else {
        Ok(string_of(&cur))
    }
}

// ---------------------------------------------------------------------------
// Token values
// ---------------------------------------------------------------------------

/// `%Y` as chrono writes it: four digits, or a sign and at least four digits
/// outside 0..=9999.
pub open spec fn year_text(y: i32) -> Seq<char> {
    if 0 <= y && y <= 9999 {
        zero_padded(y as nat, 4)
    } else if y < 0 {
        seq!['-'] + zero_padded((-y) as nat, 4)
    } else {
        seq!['+'] + zero_padded(y as nat, 4)
    }
}

/// `%m`, `%d`, `%H`, `%M`: two digits.
pub open spec fn two_text(v: u32) -> Seq<char> {
    zero_padded(v as nat, 2)
}

/// `%S`: two digits; a leap second shows as 60.
pub open spec fn second_text(t: CaptureTime) -> Seq<char> {
    zero_padded((t.second + t.nanosecond / 1_000_000_000) as nat, 2)
}

pub open spec fn date_text(t: CaptureTime) -> Seq<char> {
    year_text(t.year) + seq!['-'] + two_text(t.month) + seq!['-'] + two_text(t.day)
}

pub open spec fn timestamp_text(t: CaptureTime) -> Seq<char> {
    year_text(t.year) + two_text(t.month) + two_text(t.day) + seq!['_'] + two_text(t.hour)
        + two_text(t.minute) + second_text(t)
}

pub open spec fn or_undated(d: Option<CaptureTime>, f: spec_fn(CaptureTime) -> Seq<char>) -> Seq<
    char,
> {
    match d {
        Some(t) => f(t),
        None => "Undated"@,
    }
}

pub open spec fn or_text(o: Option<Seq<char>>, fallback: Seq<char>) -> Seq<char> {
    match o {
        Some(s) => s,
        None => fallback,
    }
}

/// The event of a folder chain: the folder directly below the last `Events`
/// folder that has one below it.
pub open spec fn event_of(dirs: Seq<Seq<char>>) -> Option<Seq<char>>
    decreases dirs.len(),
{
    if dirs.len() < 2 {
        None
    } else if dirs[dirs.len() - 2] == "Events"@ {
        Some(dirs.last())
    } else {
        event_of(dirs.drop_last())
    }
}

/// The event of a file: the event of the folders that contain it.
pub open spec fn path_event(p: Seq<char>) -> Option<Seq<char>> {
    let c = components(p);
    if c.len() == 0 {
        None
    } else {
        event_of(c.drop_last())
    }
}

/// The event among the first `n` folders of `dirs`.
pub fn event_in(dirs: &Vec<Vec<char>>, n: usize) -> (r: Option<Vec<char>>)
    requires
        n <= dirs@.len(),
    ensures
        match r {
            Some(v) => event_of(views(dirs@).take(n as int)) == Some(v@),
            None => event_of(views(dirs@).take(n as int)) is None,
        },
{
    let ghost dv = views(dirs@);
    let events = chars_of("Events");
    let mut j: usize = n;
    while j >= 2
        invariant
            dv == views(dirs@),
            n <= dirs@.len(),
            j <= n,
            events@ == "Events"@,
            event_of(dv.take(n as int)) == event_of(dv.take(j as int)),
        decreases j,
    {
        let ghost t = dv.take(j as int);
        assert(t[j - 2] == dirs@[j - 2]@);
        assert(t.last() == dirs@[j - 1]@);
        if chars_equal(&dirs[j - 2], &events) {
            return Some(crate::text::copy_chars(&dirs[j - 1]));
        }
        assert(t.drop_last() =~= dv.take(j - 1));
        j = j - 1;
    }
    None
}

/// The event of a file's path.
pub fn event_of_path(path: &str) -> (r: Option<String>)
    ensures
        match r {
            Some(v) => path_event(path@) == Some(v@),
            None => path_event(path@) is None,
        },
{
    let c = path_components(&chars_of(path));
    if c.len() == 0 {
        return None;
    }
    let ghost cv = views(c@);
    assert(cv.take(c.len() - 1) =~= components(path@).drop_last());
    match event_in(&c, c.len() - 1) {
        Some(v) => Some(string_of(&v)),
        None => None,
    }
}

/// The value of `{event_name}`: the cleaned event, or nothing at all.
pub open spec fn event_token(p: Seq<char>) -> Seq<char> {
    match path_event(p) {
        Some(e) => clean_spec(e),
        None => Seq::empty(),
    }
}

/// The values of the recipe tokens for one file.
pub open spec fn tokens_spec(
    es: Seq<crate::metadata::MetaEntry>,
    path: Seq<char>,
    date: Option<CaptureTime>,
    project: Seq<char>,
) -> Seq<(Seq<char>, Seq<char>)> {
    seq![
        ("year"@, or_undated(date, |t: CaptureTime| year_text(t.year))),
        ("month"@, or_undated(date, |t: CaptureTime| two_text(t.month))),
        ("day"@, or_undated(date, |t: CaptureTime| two_text(t.day))),
        ("date"@, or_undated(date, |t: CaptureTime| date_text(t))),
        ("timestamp"@, or_undated(date, |t: CaptureTime| timestamp_text(t))),
        ("camera"@, clean_spec(or_text(lookup(es, seq!["Model"@]), Seq::empty()))),
        ("make"@, clean_spec(or_text(lookup(es, seq!["Make"@]), Seq::empty()))),
        ("project"@, clean_spec(project)),
        ("source_folder"@, clean_spec(or_text(parent_name_of(path), "Unknown"@))),
        ("event_name"@, event_token(path)),
        ("stem"@, clean_spec(or_text(file_stem_of(path), "image"@))),
    ]
}

fn year_chars(y: i32) -> (r: Vec<char>)
    ensures
        r@ == year_text(y),
{
    if 0 <= y && y <= 9999 {
        zero_padded_chars(y as u64, 4)
    } else if y < 0 {
        let a: i64 = -(y as i64);
        let mut r: Vec<char> = Vec::new();
        r.push('-');
        append_chars(&mut r, &zero_padded_chars(a as u64, 4));
        r
    } else {
        let mut r: Vec<char> = Vec::new();
        r.push('+');
        append_chars(&mut r, &zero_padded_chars(y as u64, 4));
        r
    }
}

fn two_chars(v: u32) -> (r: Vec<char>)
    ensures
        r@ == two_text(v),
{
    zero_padded_chars(v as u64, 2)
}

fn date_token(d: Option<CaptureTime>, which: u8) -> (r: String)
    requires
        which < 5,
    ensures
        which == 0 ==> r@ == or_undated(d, |t: CaptureTime| year_text(t.year)),
        which == 1 ==> r@ == or_undated(d, |t: CaptureTime| two_text(t.month)),
        which == 2 ==> r@ == or_undated(d, |t: CaptureTime| two_text(t.day)),
        which == 3 ==> r@ == or_undated(d, |t: CaptureTime| date_text(t)),
        which == 4 ==> r@ == or_undated(d, |t: CaptureTime| timestamp_text(t)),
{
    match d {
        None => string_of(&chars_of("Undated")),
        Some(t) => {
            let v: Vec<char> = if which == 0 {
                year_chars(t.year)
            } else if which == 1 {
                two_chars(t.month)
            } else if which == 2 {
                two_chars(t.day)
            } else if which == 3 {
                let mut v = year_chars(t.year);
                v.push('-');
                append_chars(&mut v, &two_chars(t.month));
                v.push('-');
                append_chars(&mut v, &two_chars(t.day));
                v
            } else {
                let mut v = year_chars(t.year);
                append_chars(&mut v, &two_chars(t.month));
                append_chars(&mut v, &two_chars(t.day));
                v.push('_');
                append_chars(&mut v, &two_chars(t.hour));
                append_chars(&mut v, &two_chars(t.minute));
                let s: u64 = t.second as u64 + (t.nanosecond / 1_000_000_000) as u64;
                append_chars(&mut v, &zero_padded_chars(s, 2));
                v
            };
            string_of(&v)
        },
    }
}

fn text_or(o: Option<String>, fallback: &str) -> (r: String)
    ensures
        r@ == or_text(
            match o {
                Some(s) => Some(s@),
                None => None,
            },
            fallback@,
        ),
{
    match o {
        Some(s) => s,
        None => string_of(&chars_of(fallback)),
    }
}

fn pair(name: &str, value: String) -> (r: (String, String))
    ensures
        r.0@ == name@,
        r.1@ == value@,
{
    (string_of(&chars_of(name)), value)
}

/// The recipe tokens and their values for one file.
pub fn tokens(metadata: &Metadata, path: &str, date: Option<CaptureTime>, project: &str) -> (r: Vec<
    (String, String),
>)
    ensures
        pair_views(r@) == tokens_spec(metadata.entries@, path@, date, project@),
{
    let p = chars_of(path);
    let model = get_one(metadata, "Model");
    let make = get_one(metadata, "Make");
    let parent = match parent_name_chars(&p) {
        Some(n) => Some(string_of(&n)),
        None => None,
    };
    let stem = match file_stem_chars(&p) {
        Some(n) => Some(string_of(&n)),
        None => None,
    };
    let mut r: Vec<(String, String)> = Vec::new();
    r.push(pair("year", date_token(date, 0)));
    r.push(pair("month", date_token(date, 1)));
    r.push(pair("day", date_token(date, 2)));
    r.push(pair("date", date_token(date, 3)));
    r.push(pair("timestamp", date_token(date, 4)));
    r.push(pair("camera", clean(text_or(model, "").as_str())));
    r.push(pair("make", clean(text_or(make, "").as_str())));
    r.push(pair("project", clean(project)));
    r.push(pair("source_folder", clean(text_or(parent, "Unknown").as_str())));
    let event = match event_of_path(path) {
        Some(e) => clean(e.as_str()),
        None => String::new(),
    };
    r.push(pair("event_name", event));
    r.push(pair("stem", clean(text_or(stem, "image").as_str())));
    proof {
        reveal_strlit("");
        assert(""@ =~= Seq::<char>::empty());
    }
    assert(pair_views(r@) =~= tokens_spec(metadata.entries@, path@, date, project@));
    r
}

// ---------------------------------------------------------------------------
// Validation
// ---------------------------------------------------------------------------

/// A photo or video folder name: non-empty and already clean.
pub open spec fn safe_folder_name(v: Seq<char>) -> bool {
    v.len() > 0 && clean_spec(v) == v
}

pub open spec fn unsafe_component(p: Seq<char>) -> bool {
    p == ".."@ || p == "."@ || p.len() == 0
}

/// A folder template that could leave the output folder.
pub open spec fn unsafe_folder_template(t: Seq<char>) -> bool {
    ||| (t.len() > 0 && t[0] == '/')
    ||| t.contains('\\')
    ||| exists|k: int|
        0 <= k < split_by(t, '/').len() && unsafe_component(#[trigger] split_by(t, '/')[k])
}

pub open spec fn unsafe_filename_template(t: Seq<char>) -> bool {
    t.contains('/') || t.contains('\\') || t.len() == 0
}

pub open spec fn bad_keyword(k: Seq<char>) -> bool {
    k.contains('\r') || k.contains('\n') || trim_white(k).len() == 0
}

pub open spec fn render_fault(r: Result<Seq<char>, Seq<char>>) -> RecipeFault {
    match r {
        Err(s) => RecipeFault::MalformedToken(s),
        Ok(_) => RecipeFault::Keywords,
    }
}

/// What `validate` answers: the first rule that the recipe breaks.
pub open spec fn validate_spec(r: Recipe) -> Result<(), RecipeFault> {
    let probe = tokens_spec(Seq::empty(), "example.jpg"@, None, r.project@);
    if !(r.operation@ == "copy"@ || r.operation@ == "move"@) {
        Err(RecipeFault::Operation)
    } else if r.version != 1 {
        Err(RecipeFault::Version(r.version))
    } else if !safe_folder_name(r.photo_folder@) || !safe_folder_name(r.video_folder@) {
        Err(RecipeFault::FolderName)
    } else if unsafe_folder_template(r.folder_template@) {
        Err(RecipeFault::FolderTemplate)
    } else if unsafe_filename_template(r.filename_template@) {
        Err(RecipeFault::FilenameTemplate)
    } else if exists|k: int| 0 <= k < r.keywords@.len() && bad_keyword(#[trigger] r.keywords@[k]@) {
        Err(RecipeFault::Keywords)
    } else if render_spec(r.folder_template@, probe) is Err {
        Err(render_fault(render_spec(r.folder_template@, probe)))
    } else if render_spec(r.filename_template@, probe) is Err {
        Err(render_fault(render_spec(r.filename_template@, probe)))
    } else {
        Ok(())
    }
}

pub open spec fn unit_result_view(r: Result<(), RecipeError>) -> Result<(), RecipeFault> {
    match r {
        Ok(_) => Ok(()),
        Err(e) => Err(e@),
    }
}

fn safe_folder_name_exec(v: &String) -> (r: bool)
    ensures
        r == safe_folder_name(v@),
{
    if v.as_str().is_empty() {
        return false;
    }
    let c = clean(v.as_str());
    strings_equal(c.as_str(), v.as_str())
}

fn unsafe_component_exec(p: &Vec<char>) -> (r: bool)
    ensures
        r == unsafe_component(p@),
{
    let dd = chars_of("..");
    let d = chars_of(".");
    chars_equal(p, &dd) || chars_equal(p, &d) || p.len() == 0
}

#[verifier::loop_isolation(false)]
fn unsafe_folder_template_exec(t: &String) -> (r: bool)
    ensures
        r == unsafe_folder_template(t@),
{
    let v = chars_of(t.as_str());
    if v.len() > 0 && v[0] == '/' {
        return true;
    }
    if contains_char(&v, '\\') {
        return true;
    }
    let parts = split_chars(&v, '/');
    let mut k: usize = 0;
    while k < parts.len()
        invariant
            k <= parts@.len(),
            parts@.len() == split_by(v@, '/').len(),
            forall|j: int| 0 <= j < parts@.len() ==> (#[trigger] parts@[j])@ == split_by(v@, '/')[j],
            forall|j: int| 0 <= j < k ==> !unsafe_component(#[trigger] split_by(v@, '/')[j]),
        decreases parts.len() - k,
    {
        if unsafe_component_exec(&parts[k]) {
            assert(unsafe_component(split_by(t@, '/')[k as int]));
            return true;
        }
        k = k + 1;
    }
    false
}

fn unsafe_filename_template_exec(t: &String) -> (r: bool)
    ensures
        r == unsafe_filename_template(t@),
{
    let v = chars_of(t.as_str());
    contains_char(&v, '/') || contains_char(&v, '\\') || v.len() == 0
}

fn bad_keyword_exec(k: &String) -> (r: bool)
    ensures
        r == bad_keyword(k@),
{
    let v = chars_of(k.as_str());
    if contains_char(&v, '\r') || contains_char(&v, '\n') {
        return true;
    }
    trim_white_chars(&v).len() == 0
}

impl Recipe {
    /// Checks the recipe; the first rule it breaks is the error.
    #[verifier::loop_isolation(false)]
    pub fn validate(&self) -> (r: Result<(), RecipeError>)
        ensures
            unit_result_view(r) == validate_spec(*self),
    {
        if !(strings_equal(self.operation.as_str(), "copy") || strings_equal(
            self.operation.as_str(),
            "move",
        )) {
            return Err(RecipeError::Operation);
        }
        if self.version != 1 {
            return Err(RecipeError::Version(self.version));
        }
        if !safe_folder_name_exec(&self.photo_folder) || !safe_folder_name_exec(
            &self.video_folder,
        ) {
            return Err(RecipeError::FolderName);
        }
        if unsafe_folder_template_exec(&self.folder_template) {
            return Err(RecipeError::FolderTemplate);
        }
        if unsafe_filename_template_exec(&self.filename_template) {
            return Err(RecipeError::FilenameTemplate);
        }
        let mut k: usize = 0;
        while k < self.keywords.len()
            invariant
                k <= self.keywords@.len(),
                forall|j: int| 0 <= j < k ==> !bad_keyword(#[trigger] self.keywords@[j]@),
            decreases self.keywords.len() - k,
        {
            if bad_keyword_exec(&self.keywords[k]) {
                assert(bad_keyword(self.keywords@[k as int]@));
                return Err(RecipeError::Keywords);
            }
            k = k + 1;
        }
        let empty = Metadata::empty();
        let probe = tokens(&empty, "example.jpg", None, self.project.as_str());
        assert(empty.entries@ =~= Seq::<crate::metadata::MetaEntry>::empty());
        match render(self.folder_template.as_str(), &probe) {
            Err(e) => {
                return Err(e);
            },
            Ok(_) => {},
        }
        match render(self.filename_template.as_str(), &probe) {
            Err(e) => Err(e),
            Ok(_) => Ok(()),
        }
    }
}

// ---------------------------------------------------------------------------
// Capture dates
// ---------------------------------------------------------------------------

pub open spec fn capture_names() -> Seq<Seq<char>> {
    seq![
        "ExifIFD:DateTimeOriginal"@,
        "DateTimeOriginal"@,
        "SubSecDateTimeOriginal"@,
        "CreationDate"@,
        "CreateDate"@,
        "MediaCreateDate"@,
        "TrackCreateDate"@,
    ]
}

pub open spec fn date_time_format(k: int) -> Seq<char> {
    if k == 0 {
        "%Y:%m:%d %H:%M:%S"@
    } else if k == 1 {
        "%Y-%m-%dT%H:%M:%S"@
    } else {
        "%Y-%m-%d %H:%M:%S"@
    }
}

/// A parsed date and time, kept only from the year 1800 on.
pub open spec fn accepted(p: Option<(i32, u32, u32, u32, u32, u32, u32)>) -> Option<CaptureTime> {
    match p {
        Some(t) => if t.0 >= 1800 {
            Some(
                CaptureTime {
                    year: t.0,
                    month: t.1,
                    day: t.2,
                    hour: t.3,
                    minute: t.4,
                    second: t.5,
                    nanosecond: t.6,
                },
            )
        } else {
            None
        },
        None => None,
    }
}

/// Midnight of a parsed date.
pub open spec fn midnight_of(p: Option<(i32, u32, u32)>) -> Option<CaptureTime> {
    match p {
        Some(d) => Some(
            CaptureTime { year: d.0, month: d.1, day: d.2, hour: 0, minute: 0, second: 0, nanosecond: 0 },
        ),
        None => None,
    }
}

/// The first of the three date-time layouts that reads the 19-byte prefix
/// as a date from 1800 on.
pub open spec fn prefix_date(p: Seq<char>) -> Option<CaptureTime> {
    let a = accepted(chrono_date_time(p, date_time_format(0)));
    let b = accepted(chrono_date_time(p, date_time_format(1)));
    let c = accepted(chrono_date_time(p, date_time_format(2)));
    if a is Some {
        a
    } else if b is Some {
        b
    } else {
        c
    }
}

/// The capture time that one tag value gives, if any.
pub open spec fn value_date(v: Seq<char>) -> Option<CaptureTime> {
    let from_prefix = match byte_prefix(v, 19) {
        Some(p) => prefix_date(p),
        None => None,
    };
    if from_prefix is Some {
        from_prefix
    } else if utf8_len(v) == 10 {
        midnight_of(chrono_date(v, "%Y:%m:%d"@))
    } else {
        None
    }
}

/// The capture time from the `k`-th date tag on.
pub open spec fn capture_from(es: Seq<crate::metadata::MetaEntry>, k: nat) -> Option<CaptureTime>
    decreases 7 - k,
{
    if k >= 7 {
        None
    } else {
        match lookup(es, seq![capture_names()[k as int]]) {
            Some(v) => match value_date(v) {
                Some(t) => Some(t),
                None => capture_from(es, k + 1),
            },
            None => capture_from(es, k + 1),
        }
    }
}

pub open spec fn capture_spec(metadata: Metadata) -> Option<CaptureTime> {
    capture_from(metadata.entries@, 0)
}

/// Keeps a parsed date and time when its year is 1800 or later.
pub fn accept_date_time(parsed: Option<(i32, u32, u32, u32, u32, u32, u32)>) -> (r: Option<
    CaptureTime,
>)
    ensures
        r == accepted(parsed),
{
    match parsed {
        Some(t) => if t.0 >= 1800 {
            Some(
                CaptureTime {
                    year: t.0,
                    month: t.1,
                    day: t.2,
                    hour: t.3,
                    minute: t.4,
                    second: t.5,
                    nanosecond: t.6,
                },
            )
        } else {
            None
        },
        None => None,
    }
}

/// Midnight of a parsed date.
pub fn midnight(parsed: Option<(i32, u32, u32)>) -> (r: Option<CaptureTime>)
    ensures
        r == midnight_of(parsed),
{
    match parsed {
        Some(d) => Some(
            CaptureTime { year: d.0, month: d.1, day: d.2, hour: 0, minute: 0, second: 0, nanosecond: 0 },
        ),
        None => None,
    }
}

fn value_date_exec(v: &String) -> (r: Option<CaptureTime>)
    ensures
        r == value_date(v@),
{
    let c = chars_of(v.as_str());
    let from_prefix: Option<CaptureTime> = match prefix_bytes(&c, 19) {
        Some(p) => {
            let ps = string_of(&p);
            let a = accept_date_time(parse_date_time(ps.as_str(), "%Y:%m:%d %H:%M:%S"));
            if a.is_some() {
                a
            } else {
                let b = accept_date_time(parse_date_time(ps.as_str(), "%Y-%m-%dT%H:%M:%S"));
                if b.is_some() {
                    b
                } else {
                    accept_date_time(parse_date_time(ps.as_str(), "%Y-%m-%d %H:%M:%S"))
                }
            }
        },
        None => None,
    };
    if from_prefix.is_some() {
        return from_prefix;
    }
    if utf8_len_capped(&c, 10) == 10 {
        midnight(parse_date(v.as_str(), "%Y:%m:%d"))
    } else {
        None
    }
}

/// The camera's capture time: the first date tag, in order of preference,
/// whose value reads as a date.
pub fn capture_date(metadata: &Metadata) -> (r: Option<CaptureTime>)
    ensures
        r == capture_spec(*metadata),
{
    let names: [&str; 7] = [
        "ExifIFD:DateTimeOriginal",
        "DateTimeOriginal",
        "SubSecDateTimeOriginal",
        "CreationDate",
        "CreateDate",
        "MediaCreateDate",
        "TrackCreateDate",
    ];
    assert(str_views(names@) =~= capture_names());
    let mut k: usize = 0;
    while k < 7
        invariant
            k <= 7,
            str_views(names@) == capture_names(),
            capture_spec(*metadata) == capture_from(metadata.entries@, k as nat),
        decreases 7 - k,
    {
        assert(names@[k as int]@ == capture_names()[k as int]);
        match get_one(metadata, names[k]) {
            Some(v) => {
                let d = value_date_exec(&v);
                if d.is_some() {
                    return d;
                }
            },
            None => {},
        }
        k = k + 1;
    }
    None
}


// ---------------------------------------------------------------------------
// Destinations
// ---------------------------------------------------------------------------

/// Each rendered folder part, cleaned, after a `/`.
pub open spec fn joined_parts(parts: Seq<Seq<char>>) -> Seq<char>
    decreases parts.len(),
{
    if parts.len() == 0 {
        Seq::empty()
    } else {
        joined_parts(parts.drop_last()) + seq!['/'] + clean_spec(parts.last())
    }
}

/// The capture time, else (when the recipe allows it) the filesystem time.
pub open spec fn effective_date(
    r: Recipe,
    es: Seq<crate::metadata::MetaEntry>,
    fallback: Option<CaptureTime>,
) -> Option<CaptureTime> {
    let c = capture_from(es, 0);
    if c is Some {
        c
    } else if r.filesystem_date_fallback {
        fallback
    } else {
        None
    }
}

pub open spec fn zone_names() -> Seq<Seq<char>> {
    seq!["OffsetTimeOriginal"@, "OffsetTime"@, "TimeZone"@]
}

/// The review note that goes with a destination.
pub open spec fn warning_spec(
    r: Recipe,
    es: Seq<crate::metadata::MetaEntry>,
    fallback: Option<CaptureTime>,
) -> Option<Seq<char>> {
    if effective_date(r, es, fallback) is None {
        Some("No reliable capture date; review Undated"@)
    } else if capture_from(es, 0) is None {
        Some("Using filesystem modification date"@)
    } else if lookup(es, zone_names()) is None {
        Some("Timezone unspecified; recorded clock time preserved"@)
    } else {
        None
    }
}

/// The folder of the destination, below the output folder.
pub open spec fn folder_spec(
    r: Recipe,
    es: Seq<crate::metadata::MetaEntry>,
    source: Seq<char>,
    video: bool,
    fallback: Option<CaptureTime>,
) -> Result<Seq<char>, RecipeFault> {
    let date = effective_date(r, es, fallback);
    let toks = tokens_spec(es, source, date, r.project@);
    let base = if video && r.separate_video {
        r.video_folder@
    } else {
        r.photo_folder@
    };
    if date is Some {
        match render_spec(r.folder_template@, toks) {
            Ok(f) => Ok(base + joined_parts(split_by(f, '/'))),
            Err(x) => Err(RecipeFault::MalformedToken(x)),
        }
    } else {
        Ok(base + "/Undated"@)
    }
}

/// Where a file goes (relative to the output folder), and its review note.
pub open spec fn destination_spec(
    r: Recipe,
    es: Seq<crate::metadata::MetaEntry>,
    source: Seq<char>,
    video: bool,
    fallback: Option<CaptureTime>,
) -> Result<(Seq<char>, Option<Seq<char>>), RecipeFault> {
    let date = effective_date(r, es, fallback);
    let toks = tokens_spec(es, source, date, r.project@);
    match validate_spec(r) {
        Err(e) => Err(e),
        Ok(_) => match folder_spec(r, es, source, video, fallback) {
            Err(e) => Err(e),
            Ok(dir) => match render_spec(r.filename_template@, toks) {
                Err(x) => Err(RecipeFault::MalformedToken(x)),
                Ok(n) => Ok(
                    (
                        dir + seq!['/'] + clean_spec(n) + seq!['.'] + or_text(
                            extension_of(source),
                            "bin"@,
                        ),
                        warning_spec(r, es, fallback),
                    ),
                ),
            },
        },
    }
}

pub open spec fn opt_view(o: Option<String>) -> Option<Seq<char>> {
    match o {
        Some(s) => Some(s@),
        None => None,
    }
}

pub open spec fn destination_view(r: Result<(String, Option<String>), RecipeError>) -> Result<
    (Seq<char>, Option<Seq<char>>),
    RecipeFault,
> {
    match r {
        Ok((p, w)) => Ok((p@, opt_view(w))),
        Err(e) => Err(e@),
    }
}

fn date_or_fallback(cap: Option<CaptureTime>, allow: bool, fallback: Option<CaptureTime>) -> (r:
    Option<CaptureTime>)
    ensures
        r == (if cap is Some {
            cap
        } else if allow {
            fallback
        } else {
            None
        }),
{
    if cap.is_some() {
        cap
    } else if allow {
        fallback
    } else {
        None
    }
}

impl Recipe {
    /// The destination of a file (a path relative to the output folder, in
    /// the photo or video folder) and the note for its review.
    #[verifier::loop_isolation(false)]
    #[verifier::rlimit(60)]
    #[verifier::spinoff_prover]
    pub fn destination(
        &self,
        metadata: &Metadata,
        source: &str,
        video: bool,
        fallback: Option<CaptureTime>,
    ) -> (r: Result<(String, Option<String>), RecipeError>)
        ensures
            destination_view(r) == destination_spec(*self, metadata.entries@, source@, video, fallback),
    {
        match self.validate() {
            Err(e) => {
                return Err(e);
            },
            Ok(_) => {},
        }
        let cap = capture_date(metadata);
        let date = date_or_fallback(cap, self.filesystem_date_fallback, fallback);
        let toks = tokens(metadata, source, date, self.project.as_str());
        let ghost es = metadata.entries@;
        let ghost tv = tokens_spec(es, source@, date, self.project@);
        let mut path: Vec<char> = if video && self.separate_video {
            chars_of(self.video_folder.as_str())
        } else {
            chars_of(self.photo_folder.as_str())
        };
        let ghost base = path@;
        if date.is_some() {
            let f = match render(self.folder_template.as_str(), &toks) {
                Err(e) => {
                    return Err(e);
                },
                Ok(f) => f,
            };
            let fc = chars_of(f.as_str());
            let parts = split_chars(&fc, '/');
            let ghost pv = split_by(fc@, '/');
            let mut k: usize = 0;
            assert(pv.take(0) =~= Seq::<Seq<char>>::empty());
            assert(path@ =~= base + joined_parts(pv.take(0)));
            while k < parts.len()
                invariant
                    k <= parts@.len(),
                    parts@.len() == pv.len(),
                    forall|j: int| 0 <= j < parts@.len() ==> (#[trigger] parts@[j])@ == pv[j],
                    path@ == base + joined_parts(pv.take(k as int)),
                decreases parts.len() - k,
            {
                let part = string_of(&parts[k]);
                let c = clean(part.as_str());
                path.push('/');
                append_str(&mut path, c.as_str());
                proof {
                    assert(pv.take(k + 1).drop_last() =~= pv.take(k as int));
                    assert(pv.take(k + 1).last() == part@);
                }
                k = k + 1;
            }
            assert(pv.take(k as int) =~= pv);
        } else {
            append_str(&mut path, "/Undated");
        }
        assert(folder_spec(*self, es, source@, video, fallback) == Ok::<Seq<char>, RecipeFault>(path@));
        let n = match render(self.filename_template.as_str(), &toks) {
            Err(e) => {
                return Err(e);
            },
            Ok(n) => n,
        };
        let stem = clean(n.as_str());
        path.push('/');
        append_str(&mut path, stem.as_str());
        path.push('.');
        let src = chars_of(source);
        match extension_chars(&src) {
            Some(e) => append_chars(&mut path, &e),
            None => append_str(&mut path, "bin"),
        }
        let names: [&str; 3] = ["OffsetTimeOriginal", "OffsetTime", "TimeZone"];
        assert(str_views(names@) =~= zone_names());
        let warning: Option<String> = if date.is_none() {
            Some(string_of(&chars_of("No reliable capture date; review Undated")))
        } else if cap.is_none() {
            Some(string_of(&chars_of("Using filesystem modification date")))
        } else if get(metadata, names.as_slice()).is_none() {
            Some(string_of(&chars_of("Timezone unspecified; recorded clock time preserved")))
        } else {
            None
        };
        proof {
            let d = effective_date(*self, es, fallback);
            assert(date == d);
            assert(opt_view(warning) == warning_spec(*self, es, fallback));
            assert(path@ == folder_spec(*self, es, source@, video, fallback)->Ok_0 + seq!['/'] + clean_spec(n@) + seq!['.'] + or_text(extension_of(source@), "bin"@));
        }
        Ok((string_of(&path), warning))
    }
}

// ---------------------------------------------------------------------------
// Tags
// ---------------------------------------------------------------------------

pub open spec fn ascii_digit(c: char) -> bool {
    '0' <= c && c <= '9'
}

pub open spec fn ascii_letter(c: char) -> bool {
    ('a' <= c && c <= 'z') || ('A' <= c && c <= 'Z')
}

pub open spec fn hex_char(c: char) -> bool {
    ascii_digit(c) || ('a' <= c && c <= 'f') || ('A' <= c && c <= 'F')
}

/// A hidden folder: its name starts with a dot.
pub open spec fn hidden_name(n: Seq<char>) -> bool {
    n.len() > 0 && n[0] == '.'
}

/// A percent-encoded name: it holds `%` followed by two hexadecimal digits.
pub open spec fn percent_encoded(n: Seq<char>) -> bool {
    exists|i: int| 0 <= i && i + 2 < n.len() && #[trigger] n[i] == '%' && hex_char(n[i + 1])
        && hex_char(n[i + 2])
}

pub open spec fn has_digit(n: Seq<char>) -> bool {
    exists|i: int| 0 <= i < n.len() && ascii_digit(#[trigger] n[i])
}

pub open spec fn has_letter(n: Seq<char>) -> bool {
    exists|i: int| 0 <= i < n.len() && ascii_letter(#[trigger] n[i])
}

/// A hash-like identifier that mixes letters and digits: at least eight
/// hexadecimal digits and dashes (a digest or a UUID), or at least twenty
/// ASCII letters and digits without any separator.
pub open spec fn hash_like(n: Seq<char>) -> bool {
    &&& has_digit(n)
    &&& has_letter(n)
    &&& {
        ||| (n.len() >= 8 && forall|i: int| 0 <= i < n.len() ==> hex_char(#[trigger] n[i]) || n[i] == '-')
        ||| (n.len() >= 20 && forall|i: int| 0 <= i < n.len() ==> is_ascii_alnum(#[trigger] n[i]))
    }
}

/// A folder name worth a keyword: not empty, not hidden, not
/// percent-encoded and not a hash-like identifier. Numbers such as `1999`
/// and numbered names such as `004. Selected Photos` qualify.
pub open spec fn meaningful_folder_name(n: Seq<char>) -> bool {
    n.len() > 0 && !hidden_name(n) && !percent_encoded(n) && !hash_like(n)
}

fn is_hex(c: char) -> (r: bool)
    ensures
        r == hex_char(c),
{
    ('0' <= c && c <= '9') || ('a' <= c && c <= 'f') || ('A' <= c && c <= 'F')
}

/// Whether a folder name is worth a keyword.
pub fn is_meaningful_folder_name(name: &str) -> (r: bool)
    ensures
        r == meaningful_folder_name(name@),
{
    let v = chars_of(name);
    let n: usize = v.len();
    if n == 0 {
        return false;
    }
    if v[0] == '.' {
        return false;
    }
    let mut percent = false;
    let mut digit = false;
    let mut letter = false;
    let mut hexish = true;
    let mut alnum = true;
    let mut i: usize = 0;
    while i < n
        invariant
            n == v@.len(),
            v@ == name@,
            i <= n,
            percent == exists|k: int| 0 <= k < i && k + 2 < n && #[trigger] v@[k] == '%'
                && hex_char(v@[k + 1]) && hex_char(v@[k + 2]),
            digit == exists|k: int| 0 <= k < i && ascii_digit(#[trigger] v@[k]),
            letter == exists|k: int| 0 <= k < i && ascii_letter(#[trigger] v@[k]),
            hexish == forall|k: int| 0 <= k < i ==> hex_char(#[trigger] v@[k]) || v@[k] == '-',
            alnum == forall|k: int| 0 <= k < i ==> is_ascii_alnum(#[trigger] v@[k]),
        decreases n - i,
    {
        let c = v[i];
        if c == '%' && n >= 2 && i < n - 2 && is_hex(v[i + 1]) && is_hex(v[i + 2]) {
            percent = true;
        }
        if '0' <= c && c <= '9' {
            digit = true;
        }
        if ('a' <= c && c <= 'z') || ('A' <= c && c <= 'Z') {
            letter = true;
        }
        if !(is_hex(c) || c == '-') {
            hexish = false;
        }
        if !crate::text::char_is_ascii_alnum(c) {
            alnum = false;
        }
        i = i + 1;
    }
    let hash = digit && letter && ((n >= 8 && hexish) || (n >= 20 && alnum));
    !percent && !hash
}

/// A folder name that gives a tag: not excluded (ignoring ASCII case), and
/// selected when a selection is made.
pub open spec fn folder_selected(r: Recipe, name: Seq<char>) -> bool {
    &&& forall|i: int|
        0 <= i < r.excluded_folders@.len() ==> !eq_ignore_ascii_case(
            #[trigger] r.excluded_folders@[i]@,
            name,
        )
    &&& (r.selected_folders@.len() == 0 || string_views(r.selected_folders@).contains(name))
    &&& meaningful_folder_name(name)
}

pub open spec fn camera_names() -> Seq<Seq<char>> {
    seq!["Make"@, "Model"@, "LensModel"@]
}

/// The sources of tags: the file's keywords, the recipe's keywords
/// (trimmed), the selected folder names, and the camera.
pub open spec fn tag_source(
    r: Recipe,
    es: Seq<crate::metadata::MetaEntry>,
    folders: Seq<Seq<char>>,
    w: Seq<char>,
) -> bool {
    ||| has_keyword(es, w)
    ||| exists|i: int| 0 <= i < r.keywords@.len() && trim_white(#[trigger] r.keywords@[i]@) == w
    ||| (r.folder_tags && folders.contains(w) && folder_selected(r, w))
    ||| (r.event_folder_tags && event_of(folders) == Some(w))
    ||| (r.camera_tags && exists|i: int|
        0 <= i < 3 && lookup(es, seq![#[trigger] camera_names()[i]]) == Some(w))
}

fn trimmed_keywords(ks: &Vec<String>) -> (r: Vec<String>)
    ensures
        forall|w: Seq<char>| string_views(r@).contains(w) <==> exists|i: int|
            0 <= i < ks@.len() && trim_white(#[trigger] ks@[i]@) == w,
{
    let mut r: Vec<String> = Vec::new();
    let mut i: usize = 0;
    while i < ks.len()
        invariant
            i <= ks.len(),
            r@.len() == i,
            forall|k: int| 0 <= k < i ==> (#[trigger] r@[k])@ == trim_white(ks@[k]@),
        decreases ks.len() - i,
    {
        let t = trim_white_chars(&chars_of(ks[i].as_str()));
        r.push(string_of(&t));
        i = i + 1;
    }
    proof {
        assert forall|w: Seq<char>| string_views(r@).contains(w) <==> exists|i: int|
            0 <= i < ks@.len() && trim_white(#[trigger] ks@[i]@) == w by {
            if string_views(r@).contains(w) {
                let k = choose|k: int| 0 <= k < r@.len() && string_views(r@)[k] == w;
                assert(trim_white(ks@[k]@) == w);
            }
            if exists|i: int| 0 <= i < ks@.len() && trim_white(#[trigger] ks@[i]@) == w {
                let k = choose|k: int| 0 <= k < ks@.len() && trim_white(#[trigger] ks@[k]@) == w;
                assert(string_views(r@)[k] == w);
            }
        }
    }
    r
}

impl Recipe {
    #[verifier::loop_isolation(false)]
    fn is_folder_selected(&self, name: &String) -> (r: bool)
        ensures
            r == folder_selected(*self, name@),
    {
        if !is_meaningful_folder_name(name.as_str()) {
            return false;
        }
        let n = chars_of(name.as_str());
        let mut i: usize = 0;
        while i < self.excluded_folders.len()
            invariant
                i <= self.excluded_folders@.len(),
                n@ == name@,
                forall|k: int| 0 <= k < i ==> !eq_ignore_ascii_case(
                    #[trigger] self.excluded_folders@[k]@,
                    name@,
                ),
            decreases self.excluded_folders.len() - i,
        {
            let x = chars_of(self.excluded_folders[i].as_str());
            if chars_eq_ignore_ascii_case(&x, &n) {
                assert(eq_ignore_ascii_case(self.excluded_folders@[i as int]@, name@));
                return false;
            }
            i = i + 1;
        }
        if self.selected_folders.len() == 0 {
            return true;
        }
        let mut j: usize = 0;
        while j < self.selected_folders.len()
            invariant
                j <= self.selected_folders@.len(),
                n@ == name@,
                forall|k: int| 0 <= k < j ==> (#[trigger] self.selected_folders@[k])@ != name@,
            decreases self.selected_folders.len() - j,
        {
            if strings_equal(self.selected_folders[j].as_str(), name.as_str()) {
                assert(string_views(self.selected_folders@)[j as int] == name@);
                return true;
            }
            j = j + 1;
        }
        proof {
            if string_views(self.selected_folders@).contains(name@) {
                let k = choose|k: int| 0 <= k < self.selected_folders@.len() && string_views(self.selected_folders@)[k] == name@;
                assert(self.selected_folders@[k]@ == name@);
            }
        }
        false
    }

    fn selected_folder_names(&self, folders: &Vec<String>) -> (r: Vec<String>)
        ensures
            forall|w: Seq<char>| #![trigger string_views(r@).contains(w)] string_views(r@).contains(w) <==> (string_views(folders@).contains(w)
                && folder_selected(*self, w)),
    {
        let mut r: Vec<String> = Vec::new();
        let mut i: usize = 0;
        while i < folders.len()
            invariant
                i <= folders.len(),
                forall|w: Seq<char>|
                    #![trigger string_views(r@).contains(w)]
                    #![trigger string_views(folders@).take(i as int).contains(w)]
                    string_views(r@).contains(w) <==> (string_views(folders@).take(i as int).contains(w)
                    && folder_selected(*self, w)),
            decreases folders.len() - i,
        {
            let ghost r0 = string_views(r@);
            assert(forall|w: Seq<char>| r0.contains(w) <==> (string_views(folders@).take(i as int).contains(w)
                && folder_selected(*self, w)));
            if self.is_folder_selected(&folders[i]) {
                let c = copy_string(&folders[i]);
                r.push(c);
                assert(string_views(r@) =~= r0.push(folders@[i as int]@));
            } else {
                assert(string_views(r@) =~= r0);
            }
            proof {
                let t0 = string_views(folders@).take(i as int);
                let t1 = string_views(folders@).take(i + 1);
                assert(t1 =~= t0.push(folders@[i as int]@));
                assert forall|w: Seq<char>| string_views(r@).contains(w) <==> (t1.contains(w)
                    && folder_selected(*self, w)) by {
                    if string_views(r@).contains(w) {
                        let k = choose|k: int| 0 <= k < string_views(r@).len() && string_views(r@)[k] == w;
                        if k < r0.len() {
                            assert(r0[k] == w);
                            assert(r0.contains(w));
                            assert(t0.contains(w));
                            let m = choose|m: int| 0 <= m < t0.len() && t0[m] == w;
                            assert(t1[m] == w);
                        } else {
                            assert(t1[i as int] == w);
                        }
                    }
                    if t1.contains(w) && folder_selected(*self, w) {
                        let m = choose|m: int| 0 <= m < t1.len() && t1[m] == w;
                        if m < i {
                            assert(t0[m] == w);
                            assert(t0.contains(w));
                            assert(r0.contains(w));
                            let k = choose|k: int| 0 <= k < r0.len() && r0[k] == w;
                            assert(string_views(r@)[k] == w);
                        } else {
                            assert(string_views(r@)[r0.len() as int] == w);
                        }
                    }
                }
            }
            i = i + 1;
        }
        assert(string_views(folders@).take(i as int) =~= string_views(folders@));
        r
    }

    /// The tags of a file: its keywords, the recipe's keywords, the selected
    /// meaningful folder names, the event folder and the camera (each when
    /// asked); each once, in ascending order, none empty.
    pub fn tags(&self, metadata: &Metadata, folders: &Vec<String>) -> (r: Vec<String>)
        ensures
            sorted_strict(string_views(r@)),
            forall|w: Seq<char>| string_views(r@).contains(w) <==> (tag_source(
                *self,
                metadata.entries@,
                string_views(folders@),
                w,
            ) && w.len() > 0),
    {
        let ghost es = metadata.entries@;
        let ghost fv = string_views(folders@);
        let mut set: Vec<Vec<char>> = Vec::new();
        let existing = keywords_from(metadata);
        insert_strings(&mut set, &existing);
        let own = trimmed_keywords(&self.keywords);
        insert_strings(&mut set, &own);
        let ghost after_own = views(set@).to_set();
        assert forall|w: Seq<char>| after_own.contains(w) <==> (has_keyword(es, w) || exists|i: int|
            0 <= i < self.keywords@.len() && trim_white(#[trigger] self.keywords@[i]@) == w) by {
            assert(Set::<Seq<char>>::empty().contains(w) == false);
        }
        if self.folder_tags {
            let chosen = self.selected_folder_names(folders);
            insert_strings(&mut set, &chosen);
            assert forall|w: Seq<char>| views(set@).to_set().contains(w) <==> (after_own.contains(w)
                || (fv.contains(w) && folder_selected(*self, w))) by {
                assert(string_views(chosen@).to_set().contains(w) == string_views(chosen@).contains(w));
            }
        }
        let ghost after_selected = views(set@).to_set();
        assert forall|w: Seq<char>| after_selected.contains(w) <==> (after_own.contains(w)
            || (self.folder_tags && fv.contains(w) && folder_selected(*self, w))) by {}
        if self.event_folder_tags {
            let mut dirs: Vec<Vec<char>> = Vec::new();
            let mut i: usize = 0;
            while i < folders.len()
                invariant
                    i <= folders@.len(),
                    fv == string_views(folders@),
                    dirs@.len() == i,
                    views(dirs@) == fv.take(i as int),
                decreases folders.len() - i,
            {
                let ghost d0 = dirs@;
                dirs.push(chars_of(folders[i].as_str()));
                assert(dirs@ =~= d0.push(dirs@[i as int]));
                assert(views(dirs@) =~= views(d0).push(folders@[i as int]@));
                assert(fv.take(i + 1) =~= fv.take(i as int).push(fv[i as int]));
                assert(views(dirs@) =~= fv.take(i + 1));
                i = i + 1;
            }
            assert(fv.take(i as int) =~= fv);
            let mut event: Vec<String> = Vec::new();
            match event_in(&dirs, dirs.len()) {
                Some(e) => event.push(string_of(&e)),
                None => {},
            }
            assert(views(dirs@).take(dirs@.len() as int) =~= fv);
            insert_strings(&mut set, &event);
            assert forall|w: Seq<char>| views(set@).to_set().contains(w) <==> (after_selected.contains(w)
                || event_of(fv) == Some(w)) by {
                assert(string_views(event@).to_set().contains(w) == string_views(event@).contains(w));
                if event_of(fv) == Some(w) {
                    assert(string_views(event@)[0] == w);
                }
            }
        }
        let ghost after_folders = views(set@).to_set();
        assert forall|w: Seq<char>| after_folders.contains(w) <==> (after_own.contains(w)
            || (self.folder_tags && fv.contains(w) && folder_selected(*self, w))
            || (self.event_folder_tags && event_of(fv) == Some(w))) by {}
        let mut camera: Vec<String> = Vec::new();
        if self.camera_tags {
            let names: [&str; 3] = ["Make", "Model", "LensModel"];
            let mut i: usize = 0;
            while i < 3
                invariant
                    es == metadata.entries@,
                    i <= 3,
                    forall|k: int| 0 <= k < 3 ==> (#[trigger] names@[k])@ == camera_names()[k],
                    forall|w: Seq<char>| string_views(camera@).contains(w) <==> exists|k: int|
                        0 <= k < i && lookup(es, seq![#[trigger] camera_names()[k]]) == Some(w),
                decreases 3 - i,
            {
                let ghost c0 = string_views(camera@);
                let found = get_one(metadata, names[i]);
                assert(seq![names@[i as int]@] =~= seq![camera_names()[i as int]]);
                match found {
                    Some(v) => {
                        camera.push(v);
                        proof {
                            assert(string_views(camera@) =~= c0.push(v@));
                            assert(lookup(es, seq![camera_names()[i as int]]) == Some(v@));
                            assert forall|w: Seq<char>| string_views(camera@).contains(w) <==> exists|k: int|
                                0 <= k < i + 1 && lookup(es, seq![#[trigger] camera_names()[k]]) == Some(w) by {
                                if string_views(camera@).contains(w) {
                                    let j = choose|j: int| 0 <= j < string_views(camera@).len() && string_views(camera@)[j] == w;
                                    if j < c0.len() {
                                        assert(c0[j] == w);
                                        assert(c0.contains(w));
                                    } else {
                                        assert(w == v@);
                                    }
                                }
                                if exists|k: int| 0 <= k < i + 1 && lookup(es, seq![#[trigger] camera_names()[k]]) == Some(w) {
                                    let k = choose|k: int| 0 <= k < i + 1 && lookup(es, seq![#[trigger] camera_names()[k]]) == Some(w);
                                    if k < i {
                                        assert(c0.contains(w));
                                        let j = choose|j: int| 0 <= j < c0.len() && c0[j] == w;
                                        assert(string_views(camera@)[j] == w);
                                    } else {
                                        assert(string_views(camera@)[c0.len() as int] == w);
                                    }
                                }
                            }
                        }
                    },
                    None => {
                        proof {
                            assert(string_views(camera@) =~= c0);
                            assert(lookup(es, seq![camera_names()[i as int]]) is None);
                            assert forall|w: Seq<char>| string_views(camera@).contains(w) <==> exists|k: int|
                                0 <= k < i + 1 && lookup(es, seq![#[trigger] camera_names()[k]]) == Some(w) by {
                                if exists|k: int| 0 <= k < i + 1 && lookup(es, seq![#[trigger] camera_names()[k]]) == Some(w) {
                                    let k = choose|k: int| 0 <= k < i + 1 && lookup(es, seq![#[trigger] camera_names()[k]]) == Some(w);
                                    assert(k < i);
                                    assert(c0.contains(w));
                                }
                            }
                        }
                    },
                }
                i = i + 1;
            }
        }
        insert_strings(&mut set, &camera);
        remove_empty(&mut set);
        let r = strings_of(&set);
        proof {
            assert forall|w: Seq<char>| string_views(r@).contains(w) <==> (tag_source(
                *self, es, fv, w) && w.len() > 0) by {
                assert(views(set@).to_set().contains(w) == views(set@).contains(w));
                if w.len() == 0 {
                    assert(w =~= Seq::<char>::empty());
                }
            }
        }
        r
    }
}

} // verus!
