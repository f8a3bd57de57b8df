//! Properties of the library as a whole.
use vstd::prelude::*;
use crate::engine::{after_last, before_last, candidate_stem_spec, variant_spec, is_apple_double, marker_of, Marker, skip_variant_spec, same_format_spec, stage_plan_spec, transfer_first_spec, transfer_next_spec, transfer_steps,
    TransferWork, WorkOutcome, digits_value, cleanup_spec, duplicate_spec, export_action_spec, resolved_spec, CleanupStep,
    Decision, ExportAction, ItemStatus};
use crate::desktop::{action_named, idle_gate, start_spec, Job, JobAction, Refusal};
use crate::metadata::{embeddable_extension, lookup, video_extension, MetaEntry};
use crate::paths::{components, ext_of_name, extension_of, file_name_of, keep_components,
    last_index_of, last_piece, lemma_last_index_of, lemma_last_piece_is_suffix, names_a_file,
    sidecar_spec, stem_of_name};
use crate::recipe::{
    clean_spec, destination_spec, folder_selected, hash_like, hidden_name, percent_encoded, effective_date, folder_spec, joined_parts, or_text,
    render_spec, safe_folder_name, sanitize_char, tokens_spec, validate_spec, year_text, CaptureTime,
    Recipe,
};
use crate::text::{
    ascii_lower_seq, decimal, digit_char, zero_padded,
    first_index_of, lead_count, lemma_first_index_of, lemma_lead_count, lemma_split_by_nonempty,
    lemma_trail_count, split_by, trail_count, trim_dots, trim_white, dot_pred, white_pred,
    trim_by, trim_start_by, trim_end_by,
};

verus! {

/// A path component that names a child of its folder: non-empty, not `.` or
/// `..`, and without a `/`.
pub open spec fn safe_component(c: Seq<char>) -> bool {
    &&& c.len() > 0
    &&& c != seq!['.']
    &&& c != seq!['.', '.']
    &&& !c.contains('/')
}

/// A relative path that stays below the folder it is taken from: every
/// `/`-separated piece is a safe component (so it neither starts with `/`
/// nor climbs with `..`).
pub open spec fn stays_inside(p: Seq<char>) -> bool {
    forall|k: int|
        0 <= k < split_by(p, '/').len() ==> safe_component(#[trigger] split_by(p, '/')[k])
}

proof fn lemma_trim_by_is_slice(s: Seq<char>, p: spec_fn(char) -> bool)
    ensures
        forall|k: int|
            0 <= k < trim_by(s, p).len() ==> #[trigger] trim_by(s, p)[k] == s[k + lead_count(
                s,
                p,
            )],
        trim_by(s, p).len() > 0 ==> !p(trim_by(s, p)[0]),
        trim_by(s, p).len() + lead_count(s, p) <= s.len(),
{
    lemma_lead_count(s, p);
    let a = trim_start_by(s, p);
    lemma_trail_count(a, p);
    if trim_by(s, p).len() > 0 {
        assert(trim_by(s, p)[0] == a[0]);
        assert(a[0] == s[lead_count(s, p) as int]);
    }
}

/// A cleaned name is a safe path component that does not start with a dot.
pub proof fn lemma_clean_is_safe_name(value: Seq<char>)
    ensures
        safe_component(clean_spec(value)),
        clean_spec(value)[0] != '.',
        clean_spec(value).len() <= 120,
{
    let s = crate::external::nfc_of(value).map_values(|c: char| sanitize_char(c));
    assert forall|k: int| 0 <= k < s.len() implies #[trigger] s[k] != '/' by {}
    let w = trim_white(s);
    lemma_trim_by_is_slice(s, white_pred());
    assert forall|k: int| 0 <= k < w.len() implies #[trigger] w[k] != '/' by {
        assert(w[k] == s[k + lead_count(s, white_pred())]);
    }
    let t = trim_dots(w);
    lemma_trim_by_is_slice(w, dot_pred());
    assert forall|k: int| 0 <= k < t.len() implies #[trigger] t[k] != '/' by {
        assert(t[k] == w[k + lead_count(w, dot_pred())]);
    }
    let u = if t.len() > 120 {
        t.take(120)
    } else {
        t
    };
    reveal_strlit("Unknown");
    if u.len() == 0 {
        assert(clean_spec(value) == "Unknown"@);
        assert(!"Unknown"@.contains('/')) by {
            assert forall|k: int| 0 <= k < "Unknown"@.len() implies "Unknown"@[k] != '/' by {}
        }
    } else {
        assert(clean_spec(value) == u);
        assert(u[0] == t[0]);
        assert forall|k: int| 0 <= k < u.len() implies #[trigger] u[k] != '/' by {
            assert(u[k] == t[k]);
        }
        assert(u[0] != '.');
        assert(u != seq!['.']) by {
            assert(seq!['.'][0] == '.');
        }
        assert(u != seq!['.', '.']) by {
            assert(seq!['.', '.'][0] == '.');
        }
    }
}

/// A string without `/` is a single piece.
pub proof fn lemma_split_single(a: Seq<char>)
    requires
        !a.contains('/'),
    ensures
        split_by(a, '/') == seq![a],
{
    lemma_first_index_of(a, '/');
}

/// Splitting on `/` distributes over joining with `/`.
pub proof fn lemma_split_join(a: Seq<char>, b: Seq<char>)
    ensures
        split_by(a + seq!['/'] + b, '/') == split_by(a, '/') + split_by(b, '/'),
    decreases a.len(),
{
    let s = a + seq!['/'] + b;
    lemma_first_index_of(s, '/');
    lemma_first_index_of(a, '/');
    let i = first_index_of(a, '/');
    if i < a.len() {
        assert(s[i as int] == '/');
        assert forall|k: int| 0 <= k < i implies s[k] != '/' by {
            assert(s[k] == a[k]);
        }
        if first_index_of(s, '/') < i {
            assert(s[first_index_of(s, '/') as int] == a[first_index_of(s, '/') as int]);
        }
        assert(first_index_of(s, '/') == i);
        assert(s.take(i as int) =~= a.take(i as int));
        assert(s.skip(i as int + 1) =~= a.skip(i as int + 1) + seq!['/'] + b);
        lemma_split_join(a.skip(i as int + 1), b);
        assert(split_by(s, '/') =~= seq![a.take(i as int)] + (split_by(a.skip(i as int + 1), '/')
            + split_by(b, '/')));
        assert(split_by(a, '/') == seq![a.take(i as int)] + split_by(a.skip(i as int + 1), '/'));
    } else {
        assert(s[a.len() as int] == '/');
        assert forall|k: int| 0 <= k < a.len() implies s[k] != '/' by {
            assert(s[k] == a[k]);
        }
        if first_index_of(s, '/') < a.len() {
            assert(s[first_index_of(s, '/') as int] == a[first_index_of(s, '/') as int]);
        }
        assert(first_index_of(s, '/') == a.len());
        assert(s.take(a.len() as int) =~= a);
        assert(s.skip(a.len() as int + 1) =~= b);
    }
}

/// The pieces of a folder followed by rendered parts are the folder's pieces
/// followed by the cleaned parts.
proof fn lemma_split_joined(base: Seq<char>, parts: Seq<Seq<char>>)
    ensures
        split_by(base + joined_parts(parts), '/') == split_by(base, '/') + parts.map_values(
            |p: Seq<char>| clean_spec(p),
        ),
    decreases parts.len(),
{
    if parts.len() == 0 {
        assert(base + joined_parts(parts) =~= base);
        assert(parts.map_values(|p: Seq<char>| clean_spec(p)) =~= Seq::<Seq<char>>::empty());
        assert(split_by(base, '/') + Seq::<Seq<char>>::empty() =~= split_by(base, '/'));
    } else {
        let init = parts.drop_last();
        lemma_split_joined(base, init);
        let c = clean_spec(parts.last());
        lemma_clean_is_safe_name(parts.last());
        assert(base + joined_parts(parts) =~= (base + joined_parts(init)) + seq!['/'] + c);
        lemma_split_join(base + joined_parts(init), c);
        lemma_split_single(c);
        assert(parts.map_values(|p: Seq<char>| clean_spec(p)) =~= init.map_values(
            |p: Seq<char>| clean_spec(p),
        ).push(c));
        assert(split_by(base + joined_parts(parts), '/') =~= split_by(base, '/')
            + parts.map_values(|p: Seq<char>| clean_spec(p)));
    }
}

proof fn lemma_components_have_no_slash(pieces: Seq<Seq<char>>)
    requires
        forall|k: int| 0 <= k < pieces.len() ==> !(#[trigger] pieces[k]).contains('/'),
    ensures
        forall|k: int|
            0 <= k < keep_components(pieces).len() ==> !(
            #[trigger] keep_components(pieces)[k]).contains('/'),
    decreases pieces.len(),
{
    if pieces.len() > 0 {
        let init = pieces.drop_last();
        assert forall|k: int| 0 <= k < init.len() implies !(#[trigger] init[k]).contains('/') by {
            assert(init[k] == pieces[k]);
        }
        lemma_components_have_no_slash(init);
        let rest = keep_components(init);
        assert forall|k: int| 0 <= k < keep_components(pieces).len() implies !(
        #[trigger] keep_components(pieces)[k]).contains('/') by {
            if k < rest.len() {
                assert(keep_components(pieces)[k] == rest[k]);
            } else {
                assert(keep_components(pieces)[k] == pieces.last());
            }
        }
    }
}

/// An extension has no `/`.
pub proof fn lemma_extension_has_no_slash(p: Seq<char>)
    ensures
        extension_of(p) matches Some(e) ==> !e.contains('/'),
{
    lemma_split_by_nonempty(p, '/');
    lemma_components_have_no_slash(split_by(p, '/'));
    if let Some(n) = file_name_of(p) {
        let c = components(p);
        assert(n == c[c.len() - 1]);
        lemma_last_index_of(n, '.');
        let k = last_index_of(n, '.');
        if k > 0 {
            let e = n.skip(k + 1);
            assert forall|j: int| 0 <= j < e.len() implies e[j] != '/' by {
                assert(e[j] == n[j + k + 1]);
            }
        }
    }
}

/// The file part `stem.ext` of a destination is a safe component.
proof fn lemma_file_part_safe(stem_text: Seq<char>, ext: Seq<char>)
    requires
        !ext.contains('/'),
    ensures
        safe_component(clean_spec(stem_text) + seq!['.'] + ext),
{
    lemma_clean_is_safe_name(stem_text);
    let c = clean_spec(stem_text);
    let f = c + seq!['.'] + ext;
    assert(f[0] == c[0]);
    assert forall|k: int| 0 <= k < f.len() implies f[k] != '/' by {
        if k < c.len() {
            assert(f[k] == c[k]);
        } else if k > c.len() {
            assert(f[k] == ext[k - c.len() - 1]);
        }
    }
    assert(f != seq!['.']) by {
        assert(seq!['.'][0] == '.');
    }
    assert(f != seq!['.', '.']) by {
        assert(seq!['.', '.'][0] == '.');
    }
}

/// What the Ok result of a destination is, piece by piece.
#[verifier::spinoff_prover]
#[verifier::rlimit(50)]
proof fn lemma_destination_pieces(
    r: Recipe,
    es: Seq<MetaEntry>,
    source: Seq<char>,
    video: bool,
    fallback: Option<CaptureTime>,
)
    requires
        destination_spec(r, es, source, video, fallback) is Ok,
    ensures
        ({
            let p = destination_spec(r, es, source, video, fallback)->Ok_0.0;
            let base = if video && r.separate_video {
                r.video_folder@
            } else {
                r.photo_folder@
            };
            let pieces = split_by(p, '/');
            &&& pieces.len() >= 3
            &&& pieces[0] == base
            &&& effective_date(r, es, fallback) is None ==> pieces.len() == 3 && pieces[1]
                == "Undated"@
            &&& forall|k: int| 0 <= k < pieces.len() ==> safe_component(#[trigger] pieces[k])
            &&& pieces.last()[pieces.last().len() - 1 - or_text(extension_of(source), "bin"@).len()] == '.'
            &&& pieces.last().skip(pieces.last().len() - or_text(extension_of(source), "bin"@).len())
                == or_text(extension_of(source), "bin"@)
        }),
{
    let base = if video && r.separate_video {
        r.video_folder@
    } else {
        r.photo_folder@
    };
    assert(validate_spec(r) is Ok);
    assert(safe_folder_name(r.photo_folder@) && safe_folder_name(r.video_folder@));
    lemma_clean_is_safe_name(base);
    lemma_split_single(base);
    let date = effective_date(r, es, fallback);
    let toks = tokens_spec(es, source, date, r.project@);
    let dir = folder_spec(r, es, source, video, fallback)->Ok_0;
    let n = render_spec(r.filename_template@, toks)->Ok_0;
    let ext = or_text(extension_of(source), "bin"@);
    reveal_strlit("bin");
    lemma_extension_has_no_slash(source);
    assert(!ext.contains('/')) by {
        if extension_of(source) is None {
            assert forall|k: int| 0 <= k < "bin"@.len() implies "bin"@[k] != '/' by {}
        }
    }
    let file = clean_spec(n) + seq!['.'] + ext;
    lemma_file_part_safe(n, ext);
    lemma_split_single(file);
    let p = destination_spec(r, es, source, video, fallback)->Ok_0.0;
    assert(p =~= dir + seq!['/'] + file);
    lemma_split_join(dir, file);
    let pieces = split_by(p, '/');
    if date is Some {
        let f = render_spec(r.folder_template@, toks)->Ok_0;
        let parts = split_by(f, '/');
        lemma_split_by_nonempty(f, '/');
        lemma_split_joined(base, parts);
        assert(dir == base + joined_parts(parts));
        let cleaned = parts.map_values(|q: Seq<char>| clean_spec(q));
        assert(pieces =~= seq![base] + cleaned + seq![file]);
        assert forall|k: int| 0 <= k < pieces.len() implies safe_component(#[trigger] pieces[k]) by {
            if k > 0 && k < pieces.len() - 1 {
                assert(pieces[k] == cleaned[k - 1]);
                lemma_clean_is_safe_name(parts[k - 1]);
            }
        }
    } else {
        reveal_strlit("/Undated");
        reveal_strlit("Undated");
        assert(dir =~= base + seq!['/'] + "Undated"@);
        lemma_split_join(base, "Undated"@);
        assert(!"Undated"@.contains('/')) by {
            assert forall|k: int| 0 <= k < "Undated"@.len() implies "Undated"@[k] != '/' by {}
        }
        lemma_split_single("Undated"@);
        assert(pieces =~= seq![base, "Undated"@, file]);
        assert(safe_component("Undated"@)) by {
            assert("Undated"@[0] != '.');
            assert(seq!['.'][0] == '.');
            assert(seq!['.', '.'][0] == '.');
        }
    }
    assert(pieces.last() == file);
    assert(file.skip(file.len() - ext.len()) =~= ext);
}

/// Recipe destinations never leave the output folder: every piece of the
/// relative path is a plain name — no empty piece, no leading `/`, no `.` or
/// `..`.
pub proof fn lemma_destination_stays_inside(
    r: Recipe,
    es: Seq<MetaEntry>,
    source: Seq<char>,
    video: bool,
    fallback: Option<CaptureTime>,
)
    requires
        destination_spec(r, es, source, video, fallback) is Ok,
    ensures
        stays_inside(destination_spec(r, es, source, video, fallback)->Ok_0.0),
{
    lemma_destination_pieces(r, es, source, video, fallback);
}

/// A file goes into the video folder exactly when it is a video and the
/// recipe separates videos; otherwise into the photo folder.
pub proof fn lemma_destination_media_folder(
    r: Recipe,
    es: Seq<MetaEntry>,
    source: Seq<char>,
    video: bool,
    fallback: Option<CaptureTime>,
)
    requires
        destination_spec(r, es, source, video, fallback) is Ok,
    ensures
        split_by(destination_spec(r, es, source, video, fallback)->Ok_0.0, '/')[0] == (if video
            && r.separate_video {
            r.video_folder@
        } else {
            r.photo_folder@
        }),
{
    lemma_destination_pieces(r, es, source, video, fallback);
}

/// Files without a reliable date go directly into the `Undated` folder.
pub proof fn lemma_destination_undated(
    r: Recipe,
    es: Seq<MetaEntry>,
    source: Seq<char>,
    video: bool,
    fallback: Option<CaptureTime>,
)
    requires
        destination_spec(r, es, source, video, fallback) is Ok,
        effective_date(r, es, fallback) is None,
    ensures
        split_by(destination_spec(r, es, source, video, fallback)->Ok_0.0, '/').len() == 3,
        split_by(destination_spec(r, es, source, video, fallback)->Ok_0.0, '/')[1] == "Undated"@,
{
    lemma_destination_pieces(r, es, source, video, fallback);
}

/// The destination keeps the source's extension (`bin` when it has none).
pub proof fn lemma_destination_keeps_extension(
    r: Recipe,
    es: Seq<MetaEntry>,
    source: Seq<char>,
    video: bool,
    fallback: Option<CaptureTime>,
)
    requires
        destination_spec(r, es, source, video, fallback) is Ok,
    ensures
        ({
            let p = destination_spec(r, es, source, video, fallback)->Ok_0.0;
            let ext = or_text(extension_of(source), "bin"@);
            &&& p.len() > ext.len()
            &&& p[p.len() - 1 - ext.len()] == '.'
            &&& p.skip(p.len() - ext.len()) == ext
        }),
{
    lemma_destination_pieces(r, es, source, video, fallback);
    let p = destination_spec(r, es, source, video, fallback)->Ok_0.0;
    let ext = or_text(extension_of(source), "bin"@);
    let dir = folder_spec(r, es, source, video, fallback)->Ok_0;
    let date = effective_date(r, es, fallback);
    let toks = tokens_spec(es, source, date, r.project@);
    let n = render_spec(r.filename_template@, toks)->Ok_0;
    let file = clean_spec(n) + seq!['.'] + ext;
    assert(p =~= dir + seq!['/'] + file);
    assert(p.skip(p.len() - ext.len()) =~= ext);
    assert(p[p.len() - 1 - ext.len()] == file[file.len() - 1 - ext.len()]);
}

/// A sidecar lies in the same folder as its file and has the file's stem
/// (including any `__N` collision suffix), with its own extension.
#[verifier::spinoff_prover]
#[verifier::rlimit(50)]
pub proof fn lemma_sidecar_shares_stem(p: Seq<char>, ext: Seq<char>)
    requires
        names_a_file(p),
        ext.len() > 0,
        !ext.contains('.'),
        !ext.contains('/'),
    ensures
        ({
            let s = sidecar_spec(p, ext);
            &&& last_piece(s) == stem_of_name(last_piece(p)) + seq!['.'] + ext
            &&& stem_of_name(last_piece(s)) == stem_of_name(last_piece(p))
            &&& ext_of_name(last_piece(s)) == Some(ext)
            &&& s.take(s.len() - last_piece(s).len()) == p.take(p.len() - last_piece(p).len())
        }),
{
    let n = last_piece(p);
    lemma_last_piece_is_suffix(p);
    let dir = p.take(p.len() - n.len());
    lemma_last_index_of(n, '.');
    let stem = stem_of_name(n);
    assert(stem.len() > 0);
    assert forall|j: int| 0 <= j < stem.len() implies stem[j] != '/' by {
        assert(stem[j] == n[j]);
    }
    let f = stem + seq!['.'] + ext;
    assert forall|j: int| 0 <= j < f.len() implies f[j] != '/' by {
        if j < stem.len() {
            assert(f[j] == stem[j]);
        } else if j > stem.len() {
            assert(f[j] == ext[j - stem.len() - 1]);
        }
    }
    lemma_split_single(f);
    let s = sidecar_spec(p, ext);
    assert(s == dir + f);
    if dir.len() == 0 {
        assert(s =~= f);
    } else {
        let d0 = dir.drop_last();
        assert(dir[dir.len() - 1] == '/');
        assert(s =~= d0 + seq!['/'] + f);
        lemma_split_join(d0, f);
        lemma_split_by_nonempty(d0, '/');
    }
    assert(last_piece(s) == f);
    lemma_last_index_of(f, '.');
    let k = last_index_of(f, '.');
    assert(f[stem.len() as int] == '.');
    if k < stem.len() {
        assert(f[stem.len() as int] != '.');
    }
    if k > stem.len() {
        assert(f[k] == ext[k - stem.len() - 1]);
    }
    assert(k == stem.len());
    assert(f.take(k) =~= stem);
    assert(f.skip(k + 1) =~= ext);
    assert(s.take(s.len() - f.len()) =~= dir);
}

/// Resolving a group keeps every file when all are kept, and otherwise
/// exactly the first file (the smallest id); the others become duplicates.
pub proof fn lemma_resolve_keeps_all_or_first(first: i64, id: i64)
    ensures
        resolved_spec(Decision::KeepAll, id, first) == ItemStatus::Planned,
        (resolved_spec(Decision::UseFirst, id, first) == ItemStatus::Planned) <==> id == first,
        resolved_spec(Decision::UseFirst, id, first) != ItemStatus::Planned ==> resolved_spec(
            Decision::UseFirst,
            id,
            first,
        ) == ItemStatus::Duplicate,
{
}

/// A resumed export leaves finished and skipped items alone, and never
/// transfers a duplicate: only an item that is neither is staged, published
/// and (in a move) cleaned up.
pub proof fn lemma_export_touches_only_pending_items(
    status: ItemStatus,
    es: Seq<MetaEntry>,
    source: Seq<char>,
)
    ensures
        (status == ItemStatus::Done || status == ItemStatus::Skipped) ==> export_action_spec(
            status,
            es,
            source,
        ) == ExportAction::Skip,
        export_action_spec(status, es, source) == ExportAction::Transfer ==> status
            != ItemStatus::Duplicate && status != ItemStatus::Done && status
            != ItemStatus::Skipped,
{
}

/// Files whose content duplicates an earlier file are planned only as
/// duplicates (or for review), and always merge their tags into the first
/// file; differing companions put both under review.
pub proof fn lemma_duplicates_merge_or_review(
    id: i64,
    first: i64,
    same_companions: bool,
    first_status: ItemStatus,
)
    requires
        first != id,
    ensures
        duplicate_spec(id, Some(first), same_companions, first_status).merge_into_first,
        duplicate_spec(id, Some(first), same_companions, first_status).status
            == ItemStatus::Duplicate || duplicate_spec(
            id,
            Some(first),
            same_companions,
            first_status,
        ).status == ItemStatus::Review,
        !same_companions ==> duplicate_spec(id, Some(first), same_companions, first_status).status
            == ItemStatus::Review && duplicate_spec(
            id,
            Some(first),
            same_companions,
            first_status,
        ).first_needs_review,
{
}

/// A move never removes a sidecar that another indexed file shares, and
/// never touches a file twice.
pub proof fn lemma_cleanup_retains_shared(done: bool, is_source: bool, shared: bool)
    ensures
        done ==> cleanup_spec(done, is_source, shared) == CleanupStep::Skip,
        !is_source && shared ==> cleanup_spec(done, is_source, shared) != CleanupStep::Remove,
{
}

/// Reading the decimal text of a number back gives the number.
proof fn lemma_decimal_value(n: nat)
    ensures
        digits_value(decimal(n)) == n,
    decreases n,
{
    let d = decimal(n);
    let c = digit_char(n % 10);
    assert((c as u32) - 48 == n % 10);
    if n >= 10 {
        lemma_decimal_value(n / 10);
        assert(d.drop_last() =~= decimal(n / 10));
        assert(d.last() == c);
        assert((n / 10) * 10 + n % 10 == n) by (nonlinear_arith);
        assert(digits_value(d) == digits_value(decimal(n / 10)) * 10 + n % 10);
    } else {
        assert(d.drop_last() =~= Seq::<char>::empty());
        assert(d.last() == c);
        assert(digits_value(d.drop_last()) == 0);
        assert(digits_value(d) == n % 10);
    }
}

/// Two different attempts at a free destination never give the same stem:
/// the `n`-th candidate for a stem differs from the `m`-th one whenever
/// `n != m`, so a collision suffix always names a new file.
pub proof fn lemma_candidate_stems_distinct(stem: Seq<char>, n: nat, m: nat)
    requires
        n != m,
    ensures
        candidate_stem_spec(stem, n) != candidate_stem_spec(stem, m),
{
    reveal_strlit("__");
    let a = candidate_stem_spec(stem, n);
    let b = candidate_stem_spec(stem, m);
    if n != 0 && m != 0 {
        if a == b {
            let k: int = stem.len() as int + 2;
            assert(a.skip(k) =~= decimal(n));
            assert(b.skip(k) =~= decimal(m));
            lemma_decimal_value(n);
            lemma_decimal_value(m);
        }
    } else if n == 0 {
        assert(b.len() > a.len());
    } else {
        assert(a.len() > b.len());
    }
}

proof fn lemma_transfer_steps_shape(staged: bool, moving: bool, outcomes: Seq<WorkOutcome>)
    ensures
        transfer_steps(staged, moving, outcomes).len() == outcomes.len() + 1,
        transfer_steps(staged, moving, outcomes)[0] == transfer_first_spec(staged),
        forall|k: int|
            0 <= k < outcomes.len() ==> #[trigger] transfer_steps(staged, moving, outcomes)[k + 1]
                == transfer_next_spec(
                transfer_steps(staged, moving, outcomes)[k],
                moving,
                outcomes[k],
            ),
    decreases outcomes.len(),
{
    if outcomes.len() > 0 {
        let rest = outcomes.drop_last();
        lemma_transfer_steps_shape(staged, moving, rest);
        let before = transfer_steps(staged, moving, rest);
        let all = transfer_steps(staged, moving, outcomes);
        assert forall|k: int| 0 <= k < outcomes.len() implies #[trigger] all[k + 1]
            == transfer_next_spec(all[k], moving, outcomes[k]) by {
            if k < rest.len() {
                assert(all[k + 1] == before[k + 1]);
                assert(all[k] == before[k]);
                assert(outcomes[k] == rest[k]);
            }
        }
    }
}

/// A move removes the sources of an item only right after every published
/// output was verified again, which itself follows only a successful
/// publication of the whole bundle; a copy never removes anything.
pub proof fn lemma_sources_removed_only_after_verified_publication(
    staged: bool,
    moving: bool,
    outcomes: Seq<WorkOutcome>,
    j: int,
)
    requires
        0 <= j < transfer_steps(staged, moving, outcomes).len(),
        transfer_steps(staged, moving, outcomes)[j] == TransferWork::RemoveSources,
    ensures
        moving,
        j >= 2,
        transfer_steps(staged, moving, outcomes)[j - 1] == TransferWork::VerifyOutputs,
        outcomes[j - 1] == WorkOutcome::Succeeded,
        transfer_steps(staged, moving, outcomes)[j - 2] == TransferWork::Publish,
        outcomes[j - 2] == WorkOutcome::Succeeded,
{
    lemma_transfer_steps_shape(staged, moving, outcomes);
    let steps = transfer_steps(staged, moving, outcomes);
    assert(j >= 1);
    assert(steps[(j - 1) + 1] == transfer_next_spec(steps[j - 1], moving, outcomes[j - 1]));
    assert(j >= 2);
    assert(steps[(j - 2) + 1] == transfer_next_spec(steps[j - 2], moving, outcomes[j - 2]));
}

/// An item is recorded as done only after a successful step that completes
/// it: the publication of its outputs when copying, the removal of its
/// sources when moving.
pub proof fn lemma_done_only_after_completion(
    staged: bool,
    moving: bool,
    outcomes: Seq<WorkOutcome>,
    j: int,
)
    requires
        0 <= j < transfer_steps(staged, moving, outcomes).len(),
        transfer_steps(staged, moving, outcomes)[j] == TransferWork::MarkDone,
    ensures
        j >= 1,
        outcomes[j - 1] == WorkOutcome::Succeeded,
        moving ==> transfer_steps(staged, moving, outcomes)[j - 1] == TransferWork::RemoveSources,
        !moving ==> transfer_steps(staged, moving, outcomes)[j - 1] == TransferWork::Publish,
{
    lemma_transfer_steps_shape(staged, moving, outcomes);
    let steps = transfer_steps(staged, moving, outcomes);
    assert(j >= 1);
    assert(steps[(j - 1) + 1] == transfer_next_spec(steps[j - 1], moving, outcomes[j - 1]));
    if steps[j - 1] == TransferWork::RemoveSources {
        lemma_sources_removed_only_after_verified_publication(staged, moving, outcomes, j - 1);
    }
}

/// Only rendered images whose contents match their name are ever edited:
/// metadata is embedded into the media file only for an embeddable detected
/// format that agrees with the file's extension, so RAW, video and mislabeled
/// files are staged byte for byte (their keywords go to the XMP sidecar).
pub proof fn lemma_only_matching_rendered_media_is_edited(
    named: Seq<char>,
    detected: Seq<char>,
    moving: bool,
)
    ensures
        stage_plan_spec(named, detected, moving).embed ==> embeddable_extension(detected)
            && same_format_spec(named, detected),
        video_extension(detected) ==> !stage_plan_spec(named, detected, moving).embed,
{
    if video_extension(detected) {
        reveal_strlit("jpg");
        reveal_strlit("jpeg");
        reveal_strlit("dng");
        reveal_strlit("png");
        reveal_strlit("heic");
        reveal_strlit("heif");
        reveal_strlit("webp");
        reveal_strlit("mov");
        reveal_strlit("mp4");
        reveal_strlit("m4v");
        reveal_strlit("avi");
        reveal_strlit("mkv");
        reveal_strlit("mts");
        reveal_strlit("m2ts");
        reveal_strlit("mxf");
        reveal_strlit("webm");
        reveal_strlit("3gp");
        reveal_strlit("mpg");
        reveal_strlit("mpeg");
        let c = detected[0];
        assert(c == 'm' || c == 'a' || c == 'w' || c == '3');
        assert(detected != "jpg"@ && detected != "jpeg"@ && detected != "dng"@ && detected
            != "png"@ && detected != "heic"@ && detected != "heif"@) by {
            assert("jpg"@[0] == 'j' && "jpeg"@[0] == 'j' && "dng"@[0] == 'd');
            assert("png"@[0] == 'p' && "heic"@[0] == 'h' && "heif"@[0] == 'h');
        }
        assert(detected != "webp"@) by {
            if c == 'w' {
                assert(detected == "webm"@);
                assert(detected[3] != "webp"@[3]);
            } else {
                assert("webp"@[0] == 'w');
            }
        }
    }
}

/// The desktop runs one job at a time: once a job is admitted, no other job,
/// session switch, duplicate resolution or update is admitted until it ends.
pub proof fn lemma_one_job_at_a_time(job: Job, action: Seq<char>, other: Seq<char>, busy: Refusal)
    requires
        start_spec(job, action) is Ok,
    ensures
        match start_spec(job, action) {
            Ok((_, started)) => {
                &&& started.running
                &&& start_spec(started, other) == Err::<(JobAction, Job), Refusal>(
                    Refusal::JobRunning,
                )
                &&& idle_gate(started, busy) == Err::<(), Refusal>(busy)
            },
            Err(_) => false,
        },
{
}

/// An idle desktop admits every known job and every other request.
pub proof fn lemma_idle_desktop_admits(job: Job, action: Seq<char>, busy: Refusal)
    requires
        !job.running,
        action_named(action) is Some,
    ensures
        start_spec(job, action) is Ok,
        idle_gate(job, busy) is Ok,
{
}

/// Folder keywords are only meaningful names: a hidden, percent-encoded or
/// hash-like folder name never becomes a tag through the folder rule.
pub proof fn lemma_folder_tags_are_meaningful(r: Recipe, w: Seq<char>)
    ensures
        folder_selected(r, w) ==> !hidden_name(w) && !percent_encoded(w) && !hash_like(w),
{
}

/// Only low-resolution copies are ever skipped, and only when a counterpart
/// exists: a full-resolution or unmarked file is always kept in the plan.
pub proof fn lemma_only_matched_low_variants_are_skipped(
    status: ItemStatus,
    low: bool,
    counterpart: bool,
)
    ensures
        skip_variant_spec(status, low, counterpart) ==> low && counterpart,
        !low ==> !skip_variant_spec(status, low, counterpart),
{
}

/// The date tokens of a dated file are its capture time: `{year}` as chrono
/// prints a year, `{month}` and `{day}` as two digits of the capture month
/// and day, and `{date}` as year-month-day; an undated file has `Undated`
/// for each of them.
pub proof fn lemma_date_tokens_follow_capture_time(
    es: Seq<MetaEntry>,
    path: Seq<char>,
    date: Option<CaptureTime>,
    project: Seq<char>,
    k: int,
)
    requires
        0 <= k < tokens_spec(es, path, date, project).len(),
    ensures
        ({
            let (name, value) = tokens_spec(es, path, date, project)[k];
            match date {
                Some(t) => {
                    &&& name == "month"@ ==> value == zero_padded(t.month as nat, 2)
                    &&& name == "day"@ ==> value == zero_padded(t.day as nat, 2)
                    &&& name == "year"@ ==> value == year_text(t.year)
                    &&& name == "date"@ ==> value == year_text(t.year) + seq!['-'] + zero_padded(
                        t.month as nat,
                        2,
                    ) + seq!['-'] + zero_padded(t.day as nat, 2)
                },
                None => (name == "month"@ || name == "day"@ || name == "year"@ || name == "date"@
                    || name == "timestamp"@) ==> value == "Undated"@,
            }
        }),
        exists|j: int|
            0 <= j < tokens_spec(es, path, date, project).len() && (#[trigger] tokens_spec(
                es,
                path,
                date,
                project,
            )[j]).0 == "month"@,
{
    reveal_strlit("year");
    reveal_strlit("month");
    reveal_strlit("day");
    reveal_strlit("date");
    reveal_strlit("timestamp");
    reveal_strlit("camera");
    reveal_strlit("make");
    reveal_strlit("project");
    reveal_strlit("source_folder");
    reveal_strlit("event_name");
    reveal_strlit("stem");
    let toks = tokens_spec(es, path, date, project);
    assert(toks[1].0 == "month"@);
    let name = toks[k].0;
    assert("month"@.len() == 5 && "day"@.len() == 3 && "year"@.len() == 4 && "date"@.len() == 4
        && "timestamp"@.len() == 9);
    assert("year"@[0] == 'y' && "date"@[0] == 'd');
    if k == 0 {
        assert(name.len() == 4 && name[0] == 'y');
    } else if k == 2 {
        assert(name.len() == 3);
    } else if k == 3 {
        assert(name.len() == 4 && name[0] == 'd');
    } else if k == 4 {
        assert(name.len() == 9);
    } else if k == 5 {
        assert(name.len() == 6);
    } else if k == 6 {
        assert(name.len() == 4 && name[0] == 'm');
    } else if k == 7 {
        assert(name.len() == 7);
    } else if k == 8 {
        assert(name.len() == 13);
    } else if k == 9 {
        assert(name.len() == 10);
    } else if k == 10 {
        assert(name.len() == 4 && name[0] == 's');
    }
}

/// `web` and `instagram` mark low-resolution copies, and `full`, `high`,
/// `high-res`, `high res`, `original` and `master` mark full-resolution
/// ones, whatever their ASCII case.
pub proof fn lemma_resolution_markers(w: Seq<char>)
    ensures
        (ascii_lower_seq(w) == "web"@ || ascii_lower_seq(w) == "instagram"@) ==> marker_of(w)
            == Marker::Low,
        (ascii_lower_seq(w) == "full"@ || ascii_lower_seq(w) == "high"@ || ascii_lower_seq(w)
            == "high-res"@ || ascii_lower_seq(w) == "high res"@ || ascii_lower_seq(w)
            == "original"@ || ascii_lower_seq(w) == "master"@) ==> marker_of(w) == Marker::High,
        marker_of(w) == Marker::Unmarked ==> ascii_lower_seq(w) != "original"@
            && ascii_lower_seq(w) != "master"@ && ascii_lower_seq(w) != "web"@,
{
    reveal_strlit("web");
    reveal_strlit("instagram");
    reveal_strlit("full");
    reveal_strlit("high");
    reveal_strlit("high-res");
    reveal_strlit("high res");
    reveal_strlit("original");
    reveal_strlit("master");
    let l = ascii_lower_seq(w);
    if l == "full"@ || l == "high"@ || l == "high-res"@ || l == "high res"@ || l == "original"@
        || l == "master"@ {
        assert(l != "web"@ && l != "instagram"@) by {
            if l == "web"@ {
                assert(l.len() == 3);
            }
            if l == "instagram"@ {
                assert(l.len() == 9);
            }
        }
    }
}

/// Every pending item that is not an AppleDouble file is transferred, unless
/// it is a duplicate, which is only checked: a planned (or reviewed, or
/// partly exported) file is staged and published.
pub proof fn lemma_pending_items_are_transferred(
    status: ItemStatus,
    es: Seq<MetaEntry>,
    source: Seq<char>,
)
    requires
        status != ItemStatus::Done,
        status != ItemStatus::Skipped,
        lookup(es, seq!["FileType"@]) != Some("MacOS"@),
        !is_apple_double(source),
    ensures
        status == ItemStatus::Duplicate ==> export_action_spec(status, es, source)
            == ExportAction::VerifyDuplicate,
        status != ItemStatus::Duplicate ==> export_action_spec(status, es, source)
            == ExportAction::Transfer,
{
}

/// Keywords are embedded into the output copy of every correctly named
/// embeddable file (the name's extension is the detected one, or its usual
/// alias); IPTC keywords go exactly to JPEG and TIFF; and a move links the
/// source into staging exactly when nothing is written into it.
pub proof fn lemma_correctly_named_media_is_embedded(
    named: Seq<char>,
    detected: Seq<char>,
    moving: bool,
)
    ensures
        named == detected && embeddable_extension(detected) ==> stage_plan_spec(
            named,
            detected,
            moving,
        ).embed,
        (named == "jpeg"@ && detected == "jpg"@) || (named == "jpg"@ && detected == "jpeg"@)
            || (named == "heif"@ && detected == "heic"@) || (named == "heic"@ && detected
            == "heif"@) ==> stage_plan_spec(named, detected, moving).embed,
        stage_plan_spec(named, detected, moving).iptc <==> (detected == "jpg"@ || detected
            == "jpeg"@ || detected == "tif"@ || detected == "tiff"@),
        stage_plan_spec(named, detected, moving).try_link <==> (moving && !stage_plan_spec(
            named,
            detected,
            moving,
        ).embed),
{
}

/// In a move every not yet removed file of the item is removed, the item's
/// own source always, a companion unless another indexed file shares it;
/// files already removed are skipped.
pub proof fn lemma_cleanup_removes_unshared(done: bool, is_source: bool, shared: bool)
    ensures
        !done && is_source ==> cleanup_spec(done, is_source, shared) == CleanupStep::Remove,
        !done && !shared ==> cleanup_spec(done, is_source, shared) == CleanupStep::Remove,
        !done && !is_source && shared ==> cleanup_spec(done, is_source, shared)
            == CleanupStep::Retain,
        done ==> cleanup_spec(done, is_source, shared) == CleanupStep::Skip,
{
}

proof fn lemma_last_index_after(a: Seq<char>, b: Seq<char>, c: char)
    requires
        !b.contains(c),
    ensures
        last_index_of(a + seq![c] + b, c) == a.len(),
    decreases b.len(),
{
    if b.len() > 0 {
        lemma_last_index_after(a, b.drop_last(), c);
        assert((a + seq![c] + b).drop_last() =~= a + seq![c] + b.drop_last());
        assert(b.last() == b[b.len() - 1]);
    }
}

proof fn lemma_last_index_absent(s: Seq<char>, c: char)
    requires
        !s.contains(c),
    ensures
        last_index_of(s, c) == -1,
{
    lemma_last_index_of(s, c);
    if last_index_of(s, c) >= 0 {
        assert(s.contains(c)) by {
            assert(s[last_index_of(s, c)] == c);
        }
    }
}

proof fn lemma_split_at_last(a: Seq<char>, c: char, b: Seq<char>)
    requires
        !b.contains(c),
    ensures
        last_index_of(a + seq![c] + b, c) >= 0,
        before_last(a + seq![c] + b, c) == a,
        after_last(a + seq![c] + b, c) == b,
{
    lemma_last_index_after(a, b, c);
    assert((a + seq![c] + b).take(a.len() as int) =~= a);
    assert((a + seq![c] + b).skip(a.len() as int + 1) =~= b);
}

proof fn lemma_stem_of_dotted(s: Seq<char>, ext: Seq<char>)
    requires
        s.len() > 0,
        !ext.contains('.'),
    ensures
        stem_of_name(s + seq!['.'] + ext) == s,
{
    lemma_last_index_after(s, ext, '.');
    assert((s + seq!['.'] + ext).take(s.len() as int) =~= s);
}

proof fn lemma_no_char_in_join(a: Seq<char>, c: char, b: Seq<char>, x: char)
    requires
        !a.contains(x),
        !b.contains(x),
        c != x,
    ensures
        !(a + seq![c] + b).contains(x),
{
    let j = a + seq![c] + b;
    if j.contains(x) {
        let i = choose|i: int| 0 <= i < j.len() && j[i] == x;
        if i < a.len() {
            assert(a[i] == x);
        } else if i > a.len() {
            assert(b[i - a.len() - 1] == x);
        }
    }
}

/// A file whose stem carries a resolution marker (`photo_Original.jpg`,
/// `photo_web.jpg`) has the same variant key as the unmarked file of the
/// same stem in the same folder (`photo.jpg`), so the two are matched.
#[verifier::spinoff_prover]
pub proof fn lemma_marked_stem_matches_unmarked(
    dir: Seq<char>,
    base: Seq<char>,
    mark: Seq<char>,
    ext: Seq<char>,
)
    requires
        base.len() > 0,
        !base.contains('/'),
        !base.contains('_'),
        !base.contains('.'),
        !mark.contains('/'),
        !mark.contains('_'),
        !mark.contains('.'),
        !ext.contains('/'),
        !ext.contains('.'),
        marker_of(mark) != Marker::Unmarked,
    ensures
        variant_spec(dir + seq!['/'] + base + seq!['_'] + mark + seq!['.'] + ext).0
            == variant_spec(dir + seq!['/'] + base + seq!['.'] + ext).0,
{
    let s1 = base + seq!['_'] + mark;
    let n1 = s1 + seq!['.'] + ext;
    let n2 = base + seq!['.'] + ext;
    let p1 = dir + seq!['/'] + base + seq!['_'] + mark + seq!['.'] + ext;
    let p2 = dir + seq!['/'] + base + seq!['.'] + ext;
    assert(p1 =~= dir + seq!['/'] + n1);
    assert(p2 =~= dir + seq!['/'] + n2);
    lemma_no_char_in_join(base, '_', mark, '/');
    lemma_no_char_in_join(s1, '.', ext, '/');
    lemma_no_char_in_join(base, '.', ext, '/');
    lemma_split_at_last(dir, '/', n1);
    lemma_split_at_last(dir, '/', n2);
    lemma_stem_of_dotted(s1, ext);
    lemma_stem_of_dotted(base, ext);
    lemma_split_at_last(base, '_', mark);
    lemma_last_index_absent(base, '_');
}

} // verus!
