//! The decisions of the scan, plan, resolve and export jobs.  The jobs
//! themselves (the index database, the file system and the metadata tool)
//! hand these functions plain values and act on what they answer.
use vstd::prelude::*;
use crate::external::{chrono_timestamp, lowercase, lowercase_of, nfc, nfc_of, utc_from_timestamp};
use crate::metadata::{can_embed, embeddable_extension, get_one, is_photo, is_video, lookup,
    photo_extension, video_extension, Metadata};
use crate::paths::{components, file_name_chars, file_name_of, last_index_chars, last_index_of,
    lemma_last_index_of, lower_extension, path_components, stem_of_name, stem_of_name_chars};
use crate::recipe::CaptureTime;
use crate::text::{
    append_chars, ascii_lower_chars, ascii_lower_seq, copy_chars, slice_chars, append_str, chars_equal, chars_less, chars_of, copy_string, decimal, decimal_chars,
    is_prefix, seq_lt, sorted_strict, starts_with, string_of, string_views, strings_equal,
    views, lemma_seq_lt_transitive, lemma_seq_lt_trichotomy,
};

verus! {

// ---------------------------------------------------------------------------
// Progress and cancellation
// ---------------------------------------------------------------------------

/// One progress report of a job.
#[derive(Debug, Clone)]
pub struct Progress {
    pub phase: String,
    pub completed: u64,
    pub total: u64,
    pub current: String,
}

/// The report to hand to the job's observer.
pub fn progress(phase: &str, completed: u64, total: u64, current: &str) -> (r: Progress)
    ensures
        r.phase@ == phase@,
        r.completed == completed,
        r.total == total,
        r.current@ == current@,
{
    Progress {
        phase: string_of(&chars_of(phase)),
        completed,
        total,
        current: string_of(&chars_of(current)),
    }
}

/// A job stopped at the user's request.
#[derive(Debug, Clone, Copy, PartialEq, Eq, Structural)]
pub struct Cancelled;

impl Cancelled {
    pub fn message(&self) -> (r: String)
        ensures
            r@ == "Cancelled; recorded progress is safe to resume"@,
    {
        string_of(&chars_of("Cancelled; recorded progress is safe to resume"))
    }
}

/// Stops a job once cancellation has been requested.
pub fn check_cancel(cancelled: bool) -> (r: Result<(), Cancelled>)
    ensures
        r is Err <==> cancelled,
{
    if cancelled {
        Err(Cancelled)
    } else {
        Ok(())
    }
}

// ---------------------------------------------------------------------------
// Companion files
// ---------------------------------------------------------------------------

/// A sidecar (XMP or ACR) that belongs to a media file.
#[derive(Debug, Clone)]
pub struct Companion {
    pub path: String,
    pub extension: String,
    pub hash: String,
}

/// The (extension, hash) pairs that make two sets of companions equal.
pub open spec fn signature_of(list: Seq<Companion>) -> Seq<(Seq<char>, Seq<char>)> {
    list.map_values(|c: Companion| (c.extension@, c.hash@))
}

pub fn companion_signature(list: &Vec<Companion>) -> (r: Vec<(String, String)>)
    ensures
        r@.len() == list@.len(),
        forall|k: int|
            0 <= k < r@.len() ==> (#[trigger] r@[k]).0@ == list@[k].extension@ && r@[k].1@
                == list@[k].hash@,
{
    let mut r: Vec<(String, String)> = Vec::new();
    let mut i: usize = 0;
    while i < list.len()
        invariant
            i <= list.len(),
            r@.len() == i,
            forall|k: int|
                0 <= k < i ==> (#[trigger] r@[k]).0@ == list@[k].extension@ && r@[k].1@
                    == list@[k].hash@,
        decreases list.len() - i,
    {
        r.push((copy_string(&list[i].extension), copy_string(&list[i].hash)));
        i = i + 1;
    }
    r
}

/// Whether two files have the same companions (by extension and content hash).
pub fn companions_match(a: &Vec<Companion>, b: &Vec<Companion>) -> (r: bool)
    ensures
        r == (signature_of(a@) == signature_of(b@)),
{
    if a.len() != b.len() {
        return false;
    }
    let mut i: usize = 0;
    while i < a.len()
        invariant
            a.len() == b.len(),
            i <= a.len(),
            forall|k: int| 0 <= k < i ==> signature_of(a@)[k] == signature_of(b@)[k],
        decreases a.len() - i,
    {
        if !strings_equal(a[i].extension.as_str(), b[i].extension.as_str()) || !strings_equal(
            a[i].hash.as_str(),
            b[i].hash.as_str(),
        ) {
            assert(signature_of(a@)[i as int] != signature_of(b@)[i as int]);
            return false;
        }
        i = i + 1;
    }
    assert(signature_of(a@) =~= signature_of(b@));
    true
}

pub open spec fn extension_views(list: Seq<Companion>) -> Seq<Seq<char>> {
    list.map_values(|c: Companion| c.extension@)
}

/// Two companions play the same role.
pub open spec fn shared_role(list: Seq<Companion>) -> bool {
    exists|i: int, j: int|
        0 <= i < j < list.len() && (#[trigger] list[i]).extension@ == (#[trigger] list[j]).extension@
}

/// Several sidecars with one role cannot be merged safely.
#[derive(Debug, Clone, Copy, PartialEq, Eq, Structural)]
pub enum CompanionError {
    SharedRole,
}

impl CompanionError {
    pub fn message(&self) -> (r: String)
        ensures
            r@ == "Multiple sidecars with the same extension; resolve their precedence before scanning"@,
    {
        string_of(
            &chars_of(
                "Multiple sidecars with the same extension; resolve their precedence before scanning",
            ),
        )
    }
}

/// The companions of a file, ordered by extension; refused when two have
/// the same extension.
pub fn order_companions(found: Vec<Companion>) -> (r: Result<Vec<Companion>, CompanionError>)
    ensures
        r is Err <==> shared_role(found@),
        r matches Ok(v) ==> {
            &&& sorted_strict(extension_views(v@))
            &&& v@.len() == found@.len()
            &&& forall|c: Companion| v@.contains(c) <==> found@.contains(c)
        },
{
    let n: usize = found.len();
    let mut i: usize = 0;
    while i < n
        invariant
            n == found@.len(),
            i <= n,
            forall|a: int, b: int|
                0 <= a < b < n && a < i ==> (#[trigger] found@[a]).extension@ != (
                #[trigger] found@[b]).extension@,
        decreases n - i,
    {
        let mut j: usize = i + 1;
        while j < n
            invariant
                n == found@.len(),
                i < n,
                i < j <= n,
                forall|b: int| i < b < j ==> found@[i as int].extension@ != (
                #[trigger] found@[b]).extension@,
            decreases n - j,
        {
            if strings_equal(found[i].extension.as_str(), found[j].extension.as_str()) {
                assert(shared_role(found@)) by {
                    assert(found@[i as int].extension@ == found@[j as int].extension@);
                }
                return Err(CompanionError::SharedRole);
            }
            j = j + 1;
        }
        i = i + 1;
    }
    proof {
        if shared_role(found@) {
            let (a, b) = choose|a: int, b: int|
                0 <= a < b < found@.len() && (#[trigger] found@[a]).extension@ == (
                #[trigger] found@[b]).extension@;
            assert(found@[a].extension@ != found@[b].extension@);
        }
    }
    let ghost all = found@;
    let mut rest = found;
    let mut out: Vec<Companion> = Vec::new();
    while rest.len() > 0
        invariant
            sorted_strict(extension_views(out@)),
            out@.len() + rest@.len() == all.len(),
            forall|c: Companion| all.contains(c) <==> (out@.contains(c) || rest@.contains(c)),
            forall|a: int, b: int|
                0 <= a < b < all.len() ==> (#[trigger] all[a]).extension@ != (
                #[trigger] all[b]).extension@,
            forall|c: Companion, d: Companion|
                out@.contains(c) && rest@.contains(d) ==> c.extension@ != d.extension@,
            forall|a: int, b: int|
                0 <= a < b < rest@.len() ==> (#[trigger] rest@[a]).extension@ != (
                #[trigger] rest@[b]).extension@,
        decreases rest@.len(),
    {
        let ghost rest0 = rest@;
        let ghost out0 = out@;
        let x = rest.pop().unwrap();
        assert(rest0 =~= rest@.push(x));
        assert(rest0[rest0.len() - 1] == x);
        let xe = chars_of(x.extension.as_str());
        let mut k: usize = 0;
        while k < out.len() && chars_less(&chars_of(out[k].extension.as_str()), &xe)
            invariant
                k <= out@.len(),
                out@ == out0,
                xe@ == x.extension@,
                forall|m: int| 0 <= m < k ==> seq_lt(#[trigger] out@[m].extension@, x.extension@),
            decreases out@.len() - k,
        {
            k = k + 1;
        }
        proof {
            if k < out@.len() {
                assert(out0.contains(out0[k as int]));
                assert(rest0.contains(x));
                assert(out0[k as int].extension@ != x.extension@);
                lemma_seq_lt_trichotomy(out0[k as int].extension@, x.extension@);
            }
        }
        out.insert(k, x);
        proof {
            let ov = extension_views(out0);
            let nv = extension_views(out@);
            assert(out@ =~= out0.take(k as int).push(x) + out0.skip(k as int));
            assert forall|a: int, b: int| 0 <= a < b < nv.len() implies seq_lt(
                #[trigger] nv[a],
                #[trigger] nv[b],
            ) by {
                if b < k {
                    assert(nv[a] == ov[a] && nv[b] == ov[b]);
                } else if b == k {
                    assert(nv[a] == ov[a]);
                    assert(nv[a] == out@[a].extension@);
                    assert(out0[a] == out@[a]);
                } else if a == k {
                    assert(nv[b] == ov[b - 1]);
                    if b - 1 > k {
                        assert(seq_lt(ov[k as int], ov[b - 1]));
                        lemma_seq_lt_transitive(x.extension@, ov[k as int], ov[b - 1]);
                    }
                } else if a < k {
                    assert(nv[a] == ov[a]);
                    assert(nv[b] == ov[b - 1]);
                } else {
                    assert(nv[a] == ov[a - 1]);
                    assert(nv[b] == ov[b - 1]);
                }
            }
            assert forall|c: Companion| #[trigger] out@.contains(c) <==> (out0.contains(c) || c == x) by {
                if out@.contains(c) {
                    let m = choose|m: int| 0 <= m < out@.len() && out@[m] == c;
                    if m < k {
                        assert(out0[m] == c);
                    } else if m > k {
                        assert(out0[m - 1] == c);
                    }
                }
                if out0.contains(c) {
                    let m = choose|m: int| 0 <= m < out0.len() && out0[m] == c;
                    if m < k {
                        assert(out@[m] == c);
                    } else {
                        assert(out@[m + 1] == c);
                    }
                }
                if c == x {
                    assert(out@[k as int] == c);
                }
            }
            assert forall|c: Companion| #[trigger] rest0.contains(c) <==> (rest@.contains(c) || c == x) by {
                if rest0.contains(c) {
                    let m = choose|m: int| 0 <= m < rest0.len() && rest0[m] == c;
                    if m < rest@.len() {
                        assert(rest@[m] == c);
                    }
                }
                if rest@.contains(c) {
                    let m = choose|m: int| 0 <= m < rest@.len() && rest@[m] == c;
                    assert(rest0[m] == c);
                }
            }
            assert forall|c: Companion, d: Companion|
                out@.contains(c) && rest@.contains(d) implies c.extension@ != d.extension@ by {
                assert(rest0.contains(d));
                if c != x {
                    assert(out0.contains(c));
                }
                if c == x {
                    let m = choose|m: int| 0 <= m < rest@.len() && rest@[m] == d;
                    assert(rest0[m] == d);
                    assert(rest0[rest0.len() - 1] == x);
                    assert(m < rest0.len() - 1);
                    assert(rest0[m].extension@ != rest0[rest0.len() - 1].extension@);
                }
            }
            assert forall|a: int, b: int| 0 <= a < b < rest@.len() implies (
            #[trigger] rest@[a]).extension@ != (#[trigger] rest@[b]).extension@ by {
                assert(rest@[a] == rest0[a] && rest@[b] == rest0[b]);
            }
            assert forall|c: Companion| #[trigger] all.contains(c) <==> (out@.contains(c)
                || rest@.contains(c)) by {
                assert(all.contains(c) <==> (out0.contains(c) || rest0.contains(c)));
                assert(out@.contains(c) <==> (out0.contains(c) || c == x));
                assert(rest0.contains(c) <==> (rest@.contains(c) || c == x));
            }
        }
    }
    proof {
        assert forall|c: Companion| out@.contains(c) <==> all.contains(c) by {
            if rest@.contains(c) {
                let m = choose|m: int| 0 <= m < rest@.len() && rest@[m] == c;
            }
        }
    }
    Ok(out)
}

// ---------------------------------------------------------------------------
// Scanning
// ---------------------------------------------------------------------------

/// AppleDouble resource files (`._name`) are never media.
pub open spec fn is_apple_double(path: Seq<char>) -> bool {
    match file_name_of(path) {
        Some(n) => is_prefix("._"@, n),
        None => false,
    }
}

pub fn apple_double(path: &str) -> (r: bool)
    ensures
        r == is_apple_double(path@),
{
    let p = chars_of(path);
    match file_name_chars(&p) {
        Some(n) => starts_with(&n, &chars_of("._")),
        None => false,
    }
}

/// Whether a file found while scanning is indexed: not an AppleDouble file,
/// and its extension is on the photo or video allow-list.
pub open spec fn is_scan_candidate(path: Seq<char>) -> bool {
    !is_apple_double(path) && (photo_extension(lower_extension(path)) || video_extension(
        lower_extension(path),
    ))
}

pub fn scan_candidate(path: &str) -> (r: bool)
    ensures
        r == is_scan_candidate(path@),
{
    if apple_double(path) {
        return false;
    }
    let ext = crate::paths::extension(path);
    is_photo(ext.as_str()) || is_video(ext.as_str())
}

/// Whether the metadata tool in use can read files with this extension.
pub fn extension_supported(supported: &Vec<String>, extension: &str) -> (r: bool)
    ensures
        r == string_views(supported@).contains(extension@),
{
    let mut i: usize = 0;
    while i < supported.len()
        invariant
            i <= supported.len(),
            forall|k: int| 0 <= k < i ==> (#[trigger] supported@[k])@ != extension@,
        decreases supported.len() - i,
    {
        if strings_equal(supported[i].as_str(), extension) {
            assert(string_views(supported@)[i as int] == extension@);
            return true;
        }
        i = i + 1;
    }
    proof {
        if string_views(supported@).contains(extension@) {
            let k = choose|k: int| 0 <= k < supported@.len() && string_views(supported@)[k]
                == extension@;
            assert(supported@[k]@ == extension@);
        }
    }
    false
}

/// The kind of media a file holds.
#[derive(Debug, Clone, Copy, PartialEq, Eq, Structural)]
pub enum MediaKind {
    Photo,
    Video,
}

impl MediaKind {
    pub fn name(&self) -> (r: String)
        ensures
            r@ == match *self {
                MediaKind::Photo => "photo"@,
                MediaKind::Video => "video"@,
            },
    {
        match self {
            MediaKind::Photo => string_of(&chars_of("photo")),
            MediaKind::Video => string_of(&chars_of("video")),
        }
    }
}

/// Why a scanned file is not indexed.
#[derive(Debug, Clone, Copy, PartialEq, Eq, Structural)]
pub enum ScanError {
    /// The metadata tool in use cannot read this format.
    Unsupported,
    /// The contents are not a supported photo or video.
    NotMedia,
}

impl ScanError {
    pub fn message(&self) -> (r: String)
        ensures
            r@ == match *self {
                ScanError::Unsupported => "Format is not supported by bundled ExifTool"@,
                ScanError::NotMedia => "File contents are not recognized as supported photo/video media"@,
            },
    {
        match self {
            ScanError::Unsupported => string_of(
                &chars_of("Format is not supported by bundled ExifTool"),
            ),
            ScanError::NotMedia => string_of(
                &chars_of("File contents are not recognized as supported photo/video media"),
            ),
        }
    }
}

/// The extension that the file's contents have, in lower case.
pub open spec fn detected_spec(es: Seq<crate::metadata::MetaEntry>) -> Seq<char> {
    lowercase_of(
        match lookup(es, seq!["FileTypeExtension"@]) {
            Some(s) => s,
            None => Seq::empty(),
        },
    )
}

/// The kind of media for a detected (lower-case) extension and the
/// reported file type, or why it is not media.
pub open spec fn kind_spec(detected: Seq<char>, file_type: Option<Seq<char>>) -> Result<
    MediaKind,
    ScanError,
> {
    if file_type == Some("MacOS"@) || (!photo_extension(detected) && !video_extension(detected)) {
        Err(ScanError::NotMedia)
    } else if video_extension(detected) {
        Ok(MediaKind::Video)
    } else {
        Ok(MediaKind::Photo)
    }
}

/// The kind of media that the metadata reports, or why it is not media.
pub open spec fn media_kind_spec(es: Seq<crate::metadata::MetaEntry>) -> Result<
    MediaKind,
    ScanError,
> {
    kind_spec(detected_spec(es), lookup(es, seq!["FileType"@]))
}

/// Classifies media by its detected (lower-case) extension and the file
/// type that the metadata tool reports.
pub fn kind_of(detected: &str, file_type: Option<&str>) -> (r: Result<MediaKind, ScanError>)
    ensures
        r == kind_spec(
            detected@,
            match file_type {
                Some(t) => Some(t@),
                None => None,
            },
        ),
{
    let mac = match file_type {
        Some(t) => strings_equal(t, "MacOS"),
        None => false,
    };
    let photo = is_photo(detected);
    let video = is_video(detected);
    if mac || (!photo && !video) {
        Err(ScanError::NotMedia)
    } else if video {
        Ok(MediaKind::Video)
    } else {
        Ok(MediaKind::Photo)
    }
}

/// Classifies a scanned file by the contents its metadata reports.
pub fn media_kind(metadata: &Metadata) -> (r: Result<MediaKind, ScanError>)
    ensures
        r == media_kind_spec(metadata.entries@),
{
    let raw = match get_one(metadata, "FileTypeExtension") {
        Some(s) => s,
        None => String::new(),
    };
    proof {
        reveal_strlit("");
    }
    let detected = lowercase(raw.as_str());
    let file_type = get_one(metadata, "FileType");
    match file_type {
        Some(t) => kind_of(detected.as_str(), Some(t.as_str())),
        None => kind_of(detected.as_str(), None),
    }
}

/// The folder names of a file: its source root's name, then each folder
/// between the root and the file.
pub fn folder_names(root_name: &str, relative: &str) -> (r: Vec<String>)
    ensures
        string_views(r@) == seq![root_name@] + components(relative@),
{
    let mut r: Vec<String> = Vec::new();
    r.push(string_of(&chars_of(root_name)));
    let c = path_components(&chars_of(relative));
    let mut i: usize = 0;
    while i < c.len()
        invariant
            i <= c.len(),
            views(c@) == components(relative@),
            string_views(r@) == seq![root_name@] + views(c@).take(i as int),
        decreases c.len() - i,
    {
        let ghost r0 = string_views(r@);
        r.push(string_of(&c[i]));
        assert(string_views(r@) =~= seq![root_name@] + views(c@).take(i + 1)) by {
            assert(string_views(r@) =~= r0.push(c@[i as int]@));
        }
        i = i + 1;
    }
    assert(views(c@).take(i as int) =~= views(c@));
    r
}

// ---------------------------------------------------------------------------
// Item states
// ---------------------------------------------------------------------------

/// Where an item is in its export.
#[derive(Debug, Clone, Copy, PartialEq, Eq, Structural)]
pub enum ItemStatus {
    Planned,
    Review,
    Duplicate,
    Skipped,
    Publishing,
    Cleanup,
    Done,
    Error,
}

pub open spec fn status_name(s: ItemStatus) -> Seq<char> {
    match s {
        ItemStatus::Planned => "planned"@,
        ItemStatus::Review => "review"@,
        ItemStatus::Duplicate => "duplicate"@,
        ItemStatus::Skipped => "skipped"@,
        ItemStatus::Publishing => "publishing"@,
        ItemStatus::Cleanup => "cleanup"@,
        ItemStatus::Done => "done"@,
        ItemStatus::Error => "error"@,
    }
}

impl ItemStatus {
    /// The name under which the index records the status.
    pub fn name(&self) -> (r: String)
        ensures
            r@ == status_name(*self),
    {
        let s: &str = match self {
            ItemStatus::Planned => "planned",
            ItemStatus::Review => "review",
            ItemStatus::Duplicate => "duplicate",
            ItemStatus::Skipped => "skipped",
            ItemStatus::Publishing => "publishing",
            ItemStatus::Cleanup => "cleanup",
            ItemStatus::Done => "done",
            ItemStatus::Error => "error",
        };
        string_of(&chars_of(s))
    }

    /// The status recorded under a name.
    pub fn parse(text: &str) -> (r: Option<ItemStatus>)
        ensures
            r matches Some(s) ==> status_name(s) == text@,
            r is None ==> forall|s: ItemStatus| status_name(s) != text@,
    {
        if strings_equal(text, "planned") {
            Some(ItemStatus::Planned)
        } else if strings_equal(text, "review") {
            Some(ItemStatus::Review)
        } else if strings_equal(text, "duplicate") {
            Some(ItemStatus::Duplicate)
        } else if strings_equal(text, "skipped") {
            Some(ItemStatus::Skipped)
        } else if strings_equal(text, "publishing") {
            Some(ItemStatus::Publishing)
        } else if strings_equal(text, "cleanup") {
            Some(ItemStatus::Cleanup)
        } else if strings_equal(text, "done") {
            Some(ItemStatus::Done)
        } else if strings_equal(text, "error") {
            Some(ItemStatus::Error)
        } else {
            None
        }
    }
}

// ---------------------------------------------------------------------------
// Planning
// ---------------------------------------------------------------------------

/// Why a plan cannot be made.
#[derive(Debug, Clone, Copy, PartialEq, Eq, Structural)]
pub enum PlanError {
    ScanIncomplete,
    ExportStarted,
}

impl PlanError {
    pub fn message(&self) -> (r: String)
        ensures
            r@ == match *self {
                PlanError::ScanIncomplete => "Finish scanning before planning"@,
                PlanError::ExportStarted => "An export has started; resume it or create a new session"@,
            },
    {
        match self {
            PlanError::ScanIncomplete => string_of(&chars_of("Finish scanning before planning")),
            PlanError::ExportStarted => string_of(
                &chars_of("An export has started; resume it or create a new session"),
            ),
        }
    }
}

/// A plan needs a complete scan and an export that has not begun.
pub fn plan_precheck(scan_state: Option<&str>, begun: i64) -> (r: Result<(), PlanError>)
    ensures
        !(scan_state matches Some(s) && s@ == "complete"@) ==> r == Err::<(), PlanError>(
            PlanError::ScanIncomplete,
        ),
        (scan_state matches Some(s) && s@ == "complete"@) && begun > 0 ==> r == Err::<
            (),
            PlanError,
        >(PlanError::ExportStarted),
        (scan_state matches Some(s) && s@ == "complete"@) && begun <= 0 ==> r is Ok,
{
    let complete = match scan_state {
        Some(s) => strings_equal(s, "complete"),
        None => false,
    };
    if !complete {
        return Err(PlanError::ScanIncomplete);
    }
    if begun > 0 {
        return Err(PlanError::ExportStarted);
    }
    Ok(())
}

/// What planning decides for a file whose content duplicates an earlier one.
#[derive(Debug, Clone, Copy, PartialEq, Eq, Structural)]
pub struct DuplicateDecision {
    /// The status of this file's item.
    pub status: ItemStatus,
    /// The first file of the group must be reviewed too.
    pub first_needs_review: bool,
    /// This file's tags are merged into the first file's keywords.
    pub merge_into_first: bool,
}

/// The status of a planned item: a file whose content (by hash) was first
/// seen in an earlier file is a duplicate of it, unless the two have
/// different companions, which puts both under review; a duplicate of a file
/// under review is under review too.
pub open spec fn duplicate_spec(
    id: i64,
    first: Option<i64>,
    same_companions: bool,
    first_status: ItemStatus,
) -> DuplicateDecision {
    match first {
        Some(f) if f != id => if !same_companions {
            DuplicateDecision {
                status: ItemStatus::Review,
                first_needs_review: true,
                merge_into_first: true,
            }
        } else {
            DuplicateDecision {
                status: if first_status == ItemStatus::Review {
                    ItemStatus::Review
                } else {
                    ItemStatus::Duplicate
                },
                first_needs_review: false,
                merge_into_first: true,
            }
        },
        _ => DuplicateDecision {
            status: ItemStatus::Planned,
            first_needs_review: false,
            merge_into_first: false,
        },
    }
}

/// Decides the status of a planned item; `first` is the smallest item id with
/// the same content hash (`None` when the file was not hashed).
pub fn duplicate_decision(
    id: i64,
    first: Option<i64>,
    same_companions: bool,
    first_status: ItemStatus,
) -> (r: DuplicateDecision)
    ensures
        r == duplicate_spec(id, first, same_companions, first_status),
{
    match first {
        Some(f) => {
            if f != id {
                if !same_companions {
                    DuplicateDecision {
                        status: ItemStatus::Review,
                        first_needs_review: true,
                        merge_into_first: true,
                    }
                } else {
                    DuplicateDecision {
                        status: if first_status == ItemStatus::Review {
                            ItemStatus::Review
                        } else {
                            ItemStatus::Duplicate
                        },
                        first_needs_review: false,
                        merge_into_first: true,
                    }
                }
            } else {
                DuplicateDecision {
                    status: ItemStatus::Planned,
                    first_needs_review: false,
                    merge_into_first: false,
                }
            }
        },
        None => DuplicateDecision {
            status: ItemStatus::Planned,
            first_needs_review: false,
            merge_into_first: false,
        },
    }
}

/// The keywords of the first file of a duplicate group after merging: the
/// union of its keywords and this file's tags, once each, in ascending order.
pub fn merge_keywords(first: &Vec<String>, tags: &Vec<String>) -> (r: Vec<String>)
    ensures
        sorted_strict(string_views(r@)),
        forall|w: Seq<char>| string_views(r@).contains(w) <==> (string_views(first@).contains(w)
            || string_views(tags@).contains(w)),
{
    let mut set: Vec<Vec<char>> = Vec::new();
    crate::text::insert_strings(&mut set, first);
    crate::text::insert_strings(&mut set, tags);
    let r = crate::text::strings_of(&set);
    proof {
        assert forall|w: Seq<char>| string_views(r@).contains(w) <==> (string_views(first@).contains(w)
            || string_views(tags@).contains(w)) by {
            assert(views(set@).to_set().contains(w) == views(set@).contains(w));
            assert(string_views(first@).to_set().contains(w) == string_views(first@).contains(w));
            assert(string_views(tags@).to_set().contains(w) == string_views(tags@).contains(w));
            assert(Set::<Seq<char>>::empty().contains(w) == false);
        }
    }
    r
}

/// The stem of the `n`-th candidate name for a destination: the stem itself,
/// then `stem__1`, `stem__2`, and so on.
pub open spec fn candidate_stem_spec(stem: Seq<char>, n: nat) -> Seq<char> {
    if n == 0 {
        stem
    } else {
        stem + "__"@ + decimal(n)
    }
}

pub fn candidate_stem(stem: &str, n: u64) -> (r: String)
    ensures
        r@ == candidate_stem_spec(stem@, n as nat),
{
    let mut v = chars_of(stem);
    if n != 0 {
        append_str(&mut v, "__");
        crate::text::append_chars(&mut v, &decimal_chars(n));
    }
    string_of(&v)
}

/// The number of rows a listing returns: between 1 and 500.
pub fn page_limit(limit: u32) -> (r: u32)
    ensures
        r == (if limit < 1 {
            1
        } else if limit > 500 {
            500
        } else {
            limit
        }),
{
    if limit < 1 {
        1
    } else if limit > 500 {
        500
    } else {
        limit
    }
}

// ---------------------------------------------------------------------------
// Filesystem modification times
// ---------------------------------------------------------------------------

pub open spec fn is_digit(c: char) -> bool {
    '0' <= c && c <= '9'
}

/// The value of a string of decimal digits.
pub open spec fn digits_value(s: Seq<char>) -> nat
    decreases s.len(),
{
    if s.len() == 0 {
        0
    } else {
        digits_value(s.drop_last()) * 10 + ((s.last() as u32) - 48) as nat
    }
}

/// std `str::parse::<u128>`: an optional `+`, then one or more decimal
/// digits, whose value fits.
pub open spec fn all_digits(d: Seq<char>) -> bool {
    forall|k: int| 0 <= k < d.len() ==> is_digit(#[trigger] d[k])
}

/// The digits of a number, after an optional `+`.
pub open spec fn unsigned_digits(s: Seq<char>) -> Seq<char> {
    if s.len() > 0 && s[0] == '+' {
        s.skip(1)
    } else {
        s
    }
}

pub open spec fn parsed_u128(s: Seq<char>) -> Option<u128> {
    let d = unsigned_digits(s);
    if d.len() > 0 && all_digits(d) && digits_value(d) <= u128::MAX {
        Some(digits_value(d) as u128)
    } else {
        None
    }
}

#[verifier::loop_isolation(false)]
pub fn parse_u128(text: &str) -> (r: Option<u128>)
    ensures
        r == parsed_u128(text@),
{
    let s = chars_of(text);
    let start: usize = if s.len() > 0 && s[0] == '+' {
        1
    } else {
        0
    };
    let ghost d = unsigned_digits(s@);
    assert(d =~= s@.skip(start as int));
    if start >= s.len() {
        return None;
    }
    let mut value: u128 = 0;
    let mut i: usize = start;
    while i < s.len()
        invariant
            start <= i <= s.len(),
            d =~= s@.skip(start as int),
            forall|k: int| start <= k < i ==> is_digit(#[trigger] s@[k]),
            value == digits_value(s@.subrange(start as int, i as int)),
        decreases s.len() - i,
    {
        let c: char = s[i];
        if !('0' <= c && c <= '9') {
            assert(d[i - start] == s@[i as int]);
            assert(!is_digit(d[i - start]));
            return None;
        }
        let digit: u128 = ((c as u32) - 48) as u128;
        assert(s@.subrange(start as int, i + 1).drop_last() =~= s@.subrange(start as int, i as int));
        assert(d.take(i - start + 1) =~= s@.subrange(start as int, i + 1));
        match value.checked_mul(10) {
            None => {
                proof {
                    if all_digits(d) {
                        lemma_digits_value_prefix(d, (i - start + 1) as int);
                    }
                }
                return None;
            },
            Some(m) => match m.checked_add(digit) {
                None => {
                    proof {
                        if all_digits(d) {
                            lemma_digits_value_prefix(d, (i - start + 1) as int);
                        }
                    }
                    return None;
                },
                Some(v) => {
                    value = v;
                },
            },
        }
        i = i + 1;
    }
    proof {
        assert(s@.subrange(start as int, i as int) =~= d);
        assert forall|k: int| 0 <= k < d.len() implies is_digit(#[trigger] d[k]) by {
            assert(d[k] == s@[k + start]);
        }
    }
    Some(value)
}

/// The value of a digit string is at least the value of each of its prefixes.
pub proof fn lemma_digits_value_prefix(d: Seq<char>, n: int)
    requires
        0 <= n <= d.len(),
        all_digits(d),
    ensures
        digits_value(d.take(n)) <= digits_value(d),
    decreases d.len() - n,
{
    if n < d.len() {
        lemma_digits_value_prefix(d, n + 1);
        assert(d.take(n + 1).drop_last() =~= d.take(n));
        assert(is_digit(d.take(n + 1).last()));
    } else {
        assert(d.take(n) =~= d);
    }
}

/// The modification time (nanoseconds since the Unix epoch, as recorded by
/// the scan) as a UTC calendar time.
pub open spec fn fallback_spec(mtime: Seq<char>) -> Option<CaptureTime> {
    match parsed_u128(mtime) {
        Some(n) => match chrono_timestamp(((n / 1_000_000_000) as u128) as i64) {
            Some(t) => Some(
                CaptureTime {
                    year: t.0,
                    month: t.1,
                    day: t.2,
                    hour: t.3,
                    minute: t.4,
                    second: t.5,
                    nanosecond: t.6,
                },
            ),
            None => None,
        },
        None => None,
    }
}

pub fn fallback_time(mtime: &str) -> (r: Option<CaptureTime>)
    ensures
        r == fallback_spec(mtime@),
{
    match parse_u128(mtime) {
        Some(n) => {
            let q: u128 = n / 1_000_000_000;
            match utc_from_timestamp(q as i64) {
                Some(t) => Some(
                    CaptureTime {
                        year: t.0,
                        month: t.1,
                        day: t.2,
                        hour: t.3,
                        minute: t.4,
                        second: t.5,
                        nanosecond: t.6,
                    },
                ),
                None => None,
            }
        },
        None => None,
    }
}

/// How long to wait for the metadata tool: the configured number of seconds
/// when it reads as a number of at least 10, else 60.
pub open spec fn timeout_spec(setting: Option<Seq<char>>) -> u64 {
    match setting {
        Some(s) => match parsed_u128(s) {
            Some(v) => if v <= u64::MAX && v >= 10 {
                v as u64
            } else {
                60
            },
            None => 60,
        },
        None => 60,
    }
}

pub fn timeout_seconds(setting: Option<&str>) -> (r: u64)
    ensures
        r == timeout_spec(
            match setting {
                Some(s) => Some(s@),
                None => None,
            },
        ),
{
    match setting {
        Some(s) => match parse_u128(s) {
            Some(v) => if v <= 0xffff_ffff_ffff_ffffu128 && v >= 10 {
                v as u64
            } else {
                60
            },
            None => 60,
        },
        None => 60,
    }
}

// ---------------------------------------------------------------------------
// Resolving duplicate groups
// ---------------------------------------------------------------------------

/// The choice made for a duplicate group under review.
#[derive(Debug, Clone, Copy, PartialEq, Eq, Structural)]
pub enum Decision {
    KeepAll,
    UseFirst,
}

#[derive(Debug, Clone, Copy, PartialEq, Eq, Structural)]
pub enum ResolveError {
    UnknownDecision,
    GroupStarted,
}

impl ResolveError {
    pub fn message(&self) -> (r: String)
        ensures
            r@ == match *self {
                ResolveError::UnknownDecision => "Choose keep_all or use_first"@,
                ResolveError::GroupStarted => "Cannot change a group after export has started"@,
            },
    {
        match self {
            ResolveError::UnknownDecision => string_of(&chars_of("Choose keep_all or use_first")),
            ResolveError::GroupStarted => string_of(
                &chars_of("Cannot change a group after export has started"),
            ),
        }
    }
}

pub fn parse_decision(text: &str) -> (r: Result<Decision, ResolveError>)
    ensures
        text@ == "keep_all"@ ==> r == Ok::<Decision, ResolveError>(Decision::KeepAll),
        text@ == "use_first"@ ==> r == Ok::<Decision, ResolveError>(Decision::UseFirst),
        text@ != "keep_all"@ && text@ != "use_first"@ ==> r == Err::<Decision, ResolveError>(
            ResolveError::UnknownDecision,
        ),
{
    proof {
        reveal_strlit("keep_all");
        reveal_strlit("use_first");
        assert("keep_all"@[0] != "use_first"@[0]);
        assert("keep_all"@ != "use_first"@);
    }
    if strings_equal(text, "keep_all") {
        Ok(Decision::KeepAll)
    } else if strings_equal(text, "use_first") {
        Ok(Decision::UseFirst)
    } else {
        Err(ResolveError::UnknownDecision)
    }
}

/// A group can be resolved only while none of its items has begun exporting.
pub fn resolve_precheck(started: i64) -> (r: Result<(), ResolveError>)
    ensures
        r is Err <==> started > 0,
        r matches Err(e) ==> e == ResolveError::GroupStarted,
{
    if started > 0 {
        Err(ResolveError::GroupStarted)
    } else {
        Ok(())
    }
}

/// The status of an item of a resolved group: every item is planned when all
/// are kept; otherwise only the first (smallest id) is, and the rest are
/// duplicates.
pub open spec fn resolved_spec(decision: Decision, id: i64, first: i64) -> ItemStatus {
    if decision == Decision::KeepAll || id == first {
        ItemStatus::Planned
    } else {
        ItemStatus::Duplicate
    }
}

pub fn resolved_status(decision: Decision, id: i64, first: i64) -> (r: ItemStatus)
    ensures
        r == resolved_spec(decision, id, first),
{
    if decision == Decision::KeepAll || id == first {
        ItemStatus::Planned
    } else {
        ItemStatus::Duplicate
    }
}

// ---------------------------------------------------------------------------
// Exporting
// ---------------------------------------------------------------------------

/// Why an export does not start or does not finish cleanly.
#[derive(Debug, Clone, Copy, PartialEq, Eq, Structural)]
pub enum ExportError {
    NotPlanned,
    ReviewsPending(i64),
    NeedsAttention(u64),
}

impl ExportError {
    pub fn message(&self) -> (r: String)
        ensures
            r@ == match *self {
                ExportError::NotPlanned => "Create a complete export plan first"@,
                ExportError::ReviewsPending(n) => "Resolve "@ + decimal(if n < 0 {
                    0
                } else {
                    n as nat
                }) + " files with conflicting duplicate sidecars before export"@,
                ExportError::NeedsAttention(n) => decimal(n as nat)
                    + " files need attention. Review errors and resume after resolving them."@,
            },
    {
        match self {
            ExportError::NotPlanned => string_of(&chars_of("Create a complete export plan first")),
            ExportError::ReviewsPending(n) => {
                let mut m = chars_of("Resolve ");
                let v: u64 = if *n < 0 {
                    0
                } else {
                    *n as u64
                };
                crate::text::append_chars(&mut m, &decimal_chars(v));
                append_str(&mut m, " files with conflicting duplicate sidecars before export");
                string_of(&m)
            },
            ExportError::NeedsAttention(n) => {
                let mut m = decimal_chars(*n);
                append_str(&mut m, " files need attention. Review errors and resume after resolving them.");
                string_of(&m)
            },
        }
    }
}

/// An export needs a complete plan with no group under review.
pub fn export_precheck(plan_state: Option<&str>, reviews: i64) -> (r: Result<(), ExportError>)
    ensures
        !(plan_state matches Some(s) && s@ == "ready"@) ==> r == Err::<(), ExportError>(
            ExportError::NotPlanned,
        ),
        (plan_state matches Some(s) && s@ == "ready"@) && reviews > 0 ==> r == Err::<
            (),
            ExportError,
        >(ExportError::ReviewsPending(reviews)),
        (plan_state matches Some(s) && s@ == "ready"@) && reviews <= 0 ==> r is Ok,
{
    let ready = match plan_state {
        Some(s) => strings_equal(s, "ready"),
        None => false,
    };
    if !ready {
        return Err(ExportError::NotPlanned);
    }
    if reviews > 0 {
        return Err(ExportError::ReviewsPending(reviews));
    }
    Ok(())
}

/// What the export does with one item.
#[derive(Debug, Clone, Copy, PartialEq, Eq, Structural)]
pub enum ExportAction {
    /// Already exported, or deliberately left out.
    Skip,
    /// An AppleDouble metadata file: recorded as skipped.
    SkipAppleDouble,
    /// A duplicate: its source is only checked to be unchanged.
    VerifyDuplicate,
    /// Stage (unless staged before), publish, and clean up.
    Transfer,
}

pub open spec fn export_action_spec(
    status: ItemStatus,
    es: Seq<crate::metadata::MetaEntry>,
    source: Seq<char>,
) -> ExportAction {
    if status == ItemStatus::Done || status == ItemStatus::Skipped {
        ExportAction::Skip
    } else if lookup(es, seq!["FileType"@]) == Some("MacOS"@) || is_apple_double(source) {
        ExportAction::SkipAppleDouble
    } else if status == ItemStatus::Duplicate {
        ExportAction::VerifyDuplicate
    } else {
        ExportAction::Transfer
    }
}

pub fn export_action(status: ItemStatus, metadata: &Metadata, source: &str) -> (r: ExportAction)
    ensures
        r == export_action_spec(status, metadata.entries@, source@),
{
    if status == ItemStatus::Done || status == ItemStatus::Skipped {
        return ExportAction::Skip;
    }
    let mac = match get_one(metadata, "FileType") {
        Some(t) => strings_equal(t.as_str(), "MacOS"),
        None => false,
    };
    if mac || apple_double(source) {
        ExportAction::SkipAppleDouble
    } else if status == ItemStatus::Duplicate {
        ExportAction::VerifyDuplicate
    } else {
        ExportAction::Transfer
    }
}

/// The phase reported when the export loop ends.
pub fn finish_phase(failures: u64) -> (r: String)
    ensures
        failures == 0 ==> r@ == "export complete"@,
        failures > 0 ==> r@ == "export needs attention"@,
{
    if failures == 0 {
        string_of(&chars_of("export complete"))
    } else {
        string_of(&chars_of("export needs attention"))
    }
}

/// An export with failed items ends with an error that counts them.
pub fn export_outcome(failures: u64) -> (r: Result<(), ExportError>)
    ensures
        failures == 0 ==> r is Ok,
        failures > 0 ==> r == Err::<(), ExportError>(ExportError::NeedsAttention(failures)),
{
    if failures > 0 {
        Err(ExportError::NeedsAttention(failures))
    } else {
        Ok(())
    }
}

/// Two extensions name the same format.
/// One step in the export of a single item.
#[derive(Debug, Clone, Copy, PartialEq, Eq, Structural)]
pub enum TransferWork {
    /// Copy (or link) the source and its companions into staging and record
    /// every expected output.
    Stage,
    /// Check the whole staged bundle, then publish it without overwriting.
    Publish,
    /// Hash every published output again before any source is touched.
    VerifyOutputs,
    /// Remove the sources of a move, retaining shared companions.
    RemoveSources,
    /// Record the item as done.
    MarkDone,
    /// The item is done.
    Finished,
    /// Record the failure on the item and go on with the next one.
    RecordError,
    /// Stop the whole job: it was cancelled.
    StopJob,
}

/// How a step of work ended.
#[derive(Debug, Clone, Copy, PartialEq, Eq, Structural)]
pub enum WorkOutcome {
    Succeeded,
    Failed,
    /// It failed while the job was being cancelled.
    Cancelled,
}

/// The first step for an item: staging, unless its outputs were already
/// staged and recorded by an earlier run.
pub open spec fn transfer_first_spec(staged: bool) -> TransferWork {
    if staged {
        TransferWork::Publish
    } else {
        TransferWork::Stage
    }
}

/// The step that follows `work` once it has ended with `outcome`.
pub open spec fn transfer_next_spec(work: TransferWork, moving: bool, outcome: WorkOutcome) -> TransferWork {
    match outcome {
        WorkOutcome::Cancelled => TransferWork::StopJob,
        WorkOutcome::Failed => TransferWork::RecordError,
        WorkOutcome::Succeeded => match work {
            TransferWork::Stage => TransferWork::Publish,
            TransferWork::Publish => if moving {
                TransferWork::VerifyOutputs
            } else {
                TransferWork::MarkDone
            },
            TransferWork::VerifyOutputs => TransferWork::RemoveSources,
            TransferWork::RemoveSources => TransferWork::MarkDone,
            TransferWork::MarkDone => TransferWork::Finished,
            other => other,
        },
    }
}

pub fn transfer_first(staged: bool) -> (r: TransferWork)
    ensures
        r == transfer_first_spec(staged),
{
    if staged {
        TransferWork::Publish
    } else {
        TransferWork::Stage
    }
}

pub fn transfer_next(work: TransferWork, moving: bool, outcome: WorkOutcome) -> (r: TransferWork)
    ensures
        r == transfer_next_spec(work, moving, outcome),
{
    match outcome {
        WorkOutcome::Cancelled => TransferWork::StopJob,
        WorkOutcome::Failed => TransferWork::RecordError,
        WorkOutcome::Succeeded => match work {
            TransferWork::Stage => TransferWork::Publish,
            TransferWork::Publish => if moving {
                TransferWork::VerifyOutputs
            } else {
                TransferWork::MarkDone
            },
            TransferWork::VerifyOutputs => TransferWork::RemoveSources,
            TransferWork::RemoveSources => TransferWork::MarkDone,
            TransferWork::MarkDone => TransferWork::Finished,
            other => other,
        },
    }
}

/// The steps taken for an item, given how each of them ended: the first
/// step, then the step that each outcome leads to.
pub open spec fn transfer_steps(staged: bool, moving: bool, outcomes: Seq<WorkOutcome>) -> Seq<
    TransferWork,
>
    decreases outcomes.len(),
{
    if outcomes.len() == 0 {
        seq![transfer_first_spec(staged)]
    } else {
        let before = transfer_steps(staged, moving, outcomes.drop_last());
        before.push(transfer_next_spec(before.last(), moving, outcomes.last()))
    }
}

// ---------------------------------------------------------------------------
// Lower-resolution variants
// ---------------------------------------------------------------------------

/// What a name part says about the resolution of a file.
#[derive(Debug, Clone, Copy, PartialEq, Eq, Structural)]
pub enum Marker {
    Unmarked,
    /// `web` or `instagram`.
    Low,
    /// `full`, `high`, `high-res`, `high res`, `original` or `master`.
    High,
}

/// The marker a word is, ignoring ASCII case.
pub open spec fn marker_of(w: Seq<char>) -> Marker {
    let l = ascii_lower_seq(w);
    if l == "web"@ || l == "instagram"@ {
        Marker::Low
    } else if l == "full"@ || l == "high"@ || l == "high-res"@ || l == "high res"@ || l
        == "original"@ || l == "master"@ {
        Marker::High
    } else {
        Marker::Unmarked
    }
}

fn marker(w: &Vec<char>) -> (r: Marker)
    ensures
        r == marker_of(w@),
{
    let l = ascii_lower_chars(w);
    if chars_equal(&l, &chars_of("web")) || chars_equal(&l, &chars_of("instagram")) {
        Marker::Low
    } else if chars_equal(&l, &chars_of("full")) || chars_equal(&l, &chars_of("high"))
        || chars_equal(&l, &chars_of("high-res")) || chars_equal(&l, &chars_of("high res"))
        || chars_equal(&l, &chars_of("original")) || chars_equal(&l, &chars_of("master")) {
        Marker::High
    } else {
        Marker::Unmarked
    }
}

/// The part of `s` before its last `c`, or all of it when there is none.
pub open spec fn before_last(s: Seq<char>, c: char) -> Seq<char> {
    let k = last_index_of(s, c);
    if k < 0 {
        s
    } else {
        s.take(k)
    }
}

/// The part of `s` after its last `c`, or all of it when there is none.
pub open spec fn after_last(s: Seq<char>, c: char) -> Seq<char> {
    s.skip(last_index_of(s, c) + 1)
}

/// The resolution variant of a file: the key that matches it with its
/// other resolutions, and whether it is a low-resolution (web or
/// Instagram) copy.  A marker is a `_`-suffix of the stem or the name of
/// the file's folder; the key is the folder above any marker folder, then
/// `/` and the stem without its marker suffix in ASCII lower case.
pub open spec fn variant_spec(p: Seq<char>) -> (Seq<char>, bool) {
    let has_dir = last_index_of(p, '/') >= 0;
    let dir = before_last(p, '/');
    let stem = stem_of_name(after_last(p, '/'));
    let suffix = if last_index_of(stem, '_') >= 0 {
        marker_of(after_last(stem, '_'))
    } else {
        Marker::Unmarked
    };
    let base = if suffix == Marker::Unmarked {
        stem
    } else {
        before_last(stem, '_')
    };
    let folder = if has_dir {
        marker_of(after_last(dir, '/'))
    } else {
        Marker::Unmarked
    };
    let group = if !has_dir {
        Seq::empty()
    } else if folder == Marker::Unmarked {
        dir
    } else if last_index_of(dir, '/') >= 0 {
        before_last(dir, '/')
    } else {
        Seq::empty()
    };
    (group + seq!['/'] + ascii_lower_seq(base), suffix == Marker::Low || folder == Marker::Low)
}

fn before_last_chars(s: &Vec<char>, c: char) -> (r: Vec<char>)
    ensures
        r@ == before_last(s@, c),
{
    match last_index_chars(s, c) {
        Some(k) => slice_chars(s, 0, k),
        None => copy_chars(s),
    }
}

fn after_last_chars(s: &Vec<char>, c: char) -> (r: Vec<char>)
    ensures
        r@ == after_last(s@, c),
{
    proof {
        lemma_last_index_of(s@, c);
    }
    let n: usize = s.len();
    let found = last_index_chars(s, c);
    match found {
        Some(k) => {
            assert(k < n);
            slice_chars(s, k + 1, n)
        },
        None => {
            assert(s@.skip(0) =~= s@);
            copy_chars(s)
        },
    }
}

/// The resolution variant of a file path: its matching key and whether it
/// is a low-resolution copy.
pub fn resolution_variant(path: &str) -> (r: (String, bool))
    ensures
        (r.0@, r.1) == variant_spec(path@),
{
    let p = chars_of(path);
    let has_dir = last_index_chars(&p, '/').is_some();
    let dir = before_last_chars(&p, '/');
    let stem = stem_of_name_chars(&after_last_chars(&p, '/'));
    let suffix = if last_index_chars(&stem, '_').is_some() {
        marker(&after_last_chars(&stem, '_'))
    } else {
        Marker::Unmarked
    };
    let base = if suffix == Marker::Unmarked {
        copy_chars(&stem)
    } else {
        before_last_chars(&stem, '_')
    };
    let folder = if has_dir {
        marker(&after_last_chars(&dir, '/'))
    } else {
        Marker::Unmarked
    };
    let mut key = if !has_dir {
        Vec::new()
    } else if folder == Marker::Unmarked {
        copy_chars(&dir)
    } else if last_index_chars(&dir, '/').is_some() {
        before_last_chars(&dir, '/')
    } else {
        Vec::new()
    };
    key.push('/');
    append_chars(&mut key, &ascii_lower_chars(&base));
    (string_of(&key), suffix == Marker::Low || folder == Marker::Low)
}

/// A planned (or duplicate) low-resolution copy is skipped when a file of
/// its key that is not a low-resolution copy, and not the same content,
/// exists; its source is retained.
pub open spec fn skip_variant_spec(status: ItemStatus, low: bool, counterpart: bool) -> bool {
    low && counterpart && (status == ItemStatus::Planned || status == ItemStatus::Duplicate)
}

pub fn skip_variant(status: ItemStatus, low: bool, counterpart: bool) -> (r: bool)
    ensures
        r == skip_variant_spec(status, low, counterpart),
{
    low && counterpart && (status == ItemStatus::Planned || status == ItemStatus::Duplicate)
}

pub open spec fn same_format_spec(named: Seq<char>, detected: Seq<char>) -> bool {
    ||| named == detected
    ||| (named == "jpeg"@ && detected == "jpg"@)
    ||| (named == "jpg"@ && detected == "jpeg"@)
    ||| (named == "tiff"@ && detected == "tif"@)
    ||| (named == "tif"@ && detected == "tiff"@)
    ||| (named == "heif"@ && detected == "heic"@)
    ||| (named == "heic"@ && detected == "heif"@)
}

/// How one item is staged.
#[derive(Debug, Clone, Copy, PartialEq, Eq, Structural)]
pub struct StagePlan {
    /// Keywords are written into the output copy itself.
    pub embed: bool,
    /// The source is hard-linked rather than copied, when the filesystem allows.
    pub try_link: bool,
    /// IPTC keywords are written besides XMP.
    pub iptc: bool,
}

/// Media whose name matches its contents and whose format takes embedded
/// keywords gets them; mislabeled media stays byte-identical.  Only a move
/// of media that stays unchanged may be linked.
pub open spec fn stage_plan_spec(named: Seq<char>, detected: Seq<char>, moving: bool) -> StagePlan {
    let embed = same_format_spec(named, detected) && embeddable_extension(detected);
    StagePlan {
        embed,
        try_link: moving && !embed,
        iptc: detected == "jpg"@ || detected == "jpeg"@ || detected == "tif"@ || detected
            == "tiff"@,
    }
}

pub fn stage_plan(named: &str, detected: &str, moving: bool) -> (r: StagePlan)
    ensures
        r == stage_plan_spec(named@, detected@, moving),
{
    let same = strings_equal(named, detected) || (strings_equal(named, "jpeg") && strings_equal(
        detected,
        "jpg",
    )) || (strings_equal(named, "jpg") && strings_equal(detected, "jpeg")) || (strings_equal(
        named,
        "tiff",
    ) && strings_equal(detected, "tif")) || (strings_equal(named, "tif") && strings_equal(
        detected,
        "tiff",
    )) || (strings_equal(named, "heif") && strings_equal(detected, "heic")) || (strings_equal(
        named,
        "heic",
    ) && strings_equal(detected, "heif"));
    let embed = same && can_embed(detected);
    StagePlan {
        embed,
        try_link: moving && !embed,
        iptc: strings_equal(detected, "jpg") || strings_equal(detected, "jpeg") || strings_equal(
            detected,
            "tif",
        ) || strings_equal(detected, "tiff"),
    }
}

/// The extension the staged media has by content: the reported file type
/// extension, else the source's own, in lower case.
pub open spec fn staged_extension_spec(es: Seq<crate::metadata::MetaEntry>, source: Seq<char>) -> Seq<
    char,
> {
    lowercase_of(
        match lookup(es, seq!["FileTypeExtension"@]) {
            Some(s) => s,
            None => lower_extension(source),
        },
    )
}

pub fn staged_extension(metadata: &Metadata, source: &str) -> (r: String)
    ensures
        r@ == staged_extension_spec(metadata.entries@, source@),
{
    let raw = match get_one(metadata, "FileTypeExtension") {
        Some(s) => s,
        None => crate::paths::extension(source),
    };
    lowercase(raw.as_str())
}

// ---------------------------------------------------------------------------
// Reserving destinations
// ---------------------------------------------------------------------------

/// The key under which the next collision number of a destination (folder
/// and stem, without extension) is kept: NFC, then lower case.
pub open spec fn counter_key_spec(base: Seq<char>) -> Seq<char> {
    lowercase_of(nfc_of(base))
}

pub fn counter_key(base: &str) -> (r: String)
    ensures
        r@ == counter_key_spec(base@),
{
    let n = nfc(base);
    lowercase(n.as_str())
}

/// The key under which a candidate destination (folder and stem) is reserved:
/// its lower case.
pub fn reservation_key(base: &str) -> (r: String)
    ensures
        r@ == lowercase_of(base@),
{
    lowercase(base)
}

// ---------------------------------------------------------------------------
// Move cleanup
// ---------------------------------------------------------------------------

/// What cleanup does with one recorded source file.
#[derive(Debug, Clone, Copy, PartialEq, Eq, Structural)]
pub enum CleanupStep {
    /// Removed before; nothing to do.
    Skip,
    /// A companion that another indexed file refers to: kept, and marked done.
    Retain,
    /// Checked once more and removed.
    Remove,
}

pub open spec fn cleanup_spec(done: bool, is_source: bool, shared: bool) -> CleanupStep {
    if done {
        CleanupStep::Skip
    } else if !is_source && shared {
        CleanupStep::Retain
    } else {
        CleanupStep::Remove
    }
}

/// `is_source` tells the item's own media from its companions; `shared`
/// tells whether another indexed file lists the companion.
pub fn cleanup_step(done: bool, is_source: bool, shared: bool) -> (r: CleanupStep)
    ensures
        r == cleanup_spec(done, is_source, shared),
{
    if done {
        CleanupStep::Skip
    } else if !is_source && shared {
        CleanupStep::Retain
    } else {
        CleanupStep::Remove
    }
}

// ---------------------------------------------------------------------------
// Output directories that do not exist yet
// ---------------------------------------------------------------------------

/// A directory to be created may not be reached through `.` or `..`.
#[derive(Debug, Clone, Copy, PartialEq, Eq, Structural)]
pub struct TraversalError;

impl TraversalError {
    pub fn message(&self) -> (r: String)
        ensures
            r@ == "Directory traversal is not supported"@,
    {
        string_of(&chars_of("Directory traversal is not supported"))
    }
}

/// Checks the missing trailing components of an output directory.
pub fn check_new_components(parts: &Vec<String>) -> (r: Result<(), TraversalError>)
    ensures
        r is Err <==> exists|k: int|
            0 <= k < parts@.len() && ((#[trigger] parts@[k])@ == ".."@ || parts@[k]@ == "."@),
{
    let mut i: usize = 0;
    while i < parts.len()
        invariant
            i <= parts.len(),
            forall|k: int| 0 <= k < i ==> !((#[trigger] parts@[k])@ == ".."@ || parts@[k]@ == "."@),
        decreases parts.len() - i,
    {
        if strings_equal(parts[i].as_str(), "..") || strings_equal(parts[i].as_str(), ".") {
            assert(parts@[i as int]@ == ".."@ || parts@[i as int]@ == "."@);
            return Err(TraversalError);
        }
        i = i + 1;
    }
    Ok(())
}

} // verus!
