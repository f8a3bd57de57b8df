use photo_hat_engine::metadata::{keywords_from, MetaEntry, MetaValue, Metadata};
use photo_hat_engine::recipe::{
    accept_date_time, capture_date, clean, clean_normalized, event_of_path,
    is_meaningful_folder_name, midnight, render, tokens, CaptureTime, RecipeError,
};
use photo_hat_engine::Recipe;

fn dated() -> Metadata {
    let mut meta = Metadata::empty();
    meta.push_text("ExifIFD:DateTimeOriginal", "2024:07:18 23:30:22");
    meta.push_text("IFD0:Model", "Canon / R5");
    meta
}

fn time(year: i32, month: u32, day: u32) -> CaptureTime {
    CaptureTime {
        year,
        month,
        day,
        hour: 0,
        minute: 0,
        second: 0,
        nanosecond: 0,
    }
}

#[test]
fn clean_replaces_reserved_and_control_characters() {
    assert_eq!(clean("a/b:c*d?e\"f<g>h|i\\j"), "a_b_c_d_e_f_g_h_i_j");
    assert_eq!(clean("tab\there"), "tab_here");
    assert_eq!(clean("del\u{7f}x"), "del_x");
}

#[test]
fn clean_trims_whitespace_then_dots() {
    assert_eq!(clean("  ..hidden.. "), "hidden");
    assert_eq!(clean("a ."), "a ");
    assert_eq!(clean("\u{3000}name\u{a0}"), "name");
}

#[test]
fn clean_never_returns_an_empty_name() {
    assert_eq!(clean(""), "Unknown");
    assert_eq!(clean("..."), "Unknown");
    assert_eq!(clean("   "), "Unknown");
}

#[test]
fn clean_keeps_at_most_120_characters() {
    let long = "é".repeat(130);
    assert_eq!(clean(&long).chars().count(), 120);
}

#[test]
fn clean_composes_to_nfc() {
    assert_eq!(clean("e\u{301}"), "\u{e9}");
}

#[test]
fn render_replaces_every_token_occurrence() {
    let toks = vec![("stem".to_string(), "x".to_string())];
    assert_eq!(render("{stem}-{stem}", &toks).unwrap(), "x-x");
}

#[test]
fn render_reports_leftover_braces() {
    let toks = vec![("stem".to_string(), "x".to_string())];
    match render("{nope}", &toks) {
        Err(RecipeError::MalformedToken(t)) => assert_eq!(t, "{nope}"),
        other => panic!("{other:?}"),
    }
    let toks = vec![("camera".to_string(), "A{".to_string())];
    assert!(render("{camera}", &toks).is_err());
}

#[test]
fn tokens_of_an_undated_file() {
    let t = tokens(&Metadata::empty(), "Trips/Rome/a.b.jpg", None, "My/Project");
    let get = |name: &str| t.iter().find(|(k, _)| k == name).unwrap().1.clone();
    assert_eq!(t.len(), 11);
    assert_eq!(get("event_name"), "");
    assert_eq!(get("year"), "Undated");
    assert_eq!(get("timestamp"), "Undated");
    assert_eq!(get("camera"), "Unknown");
    assert_eq!(get("project"), "My_Project");
    assert_eq!(get("source_folder"), "Rome");
    assert_eq!(get("stem"), "a.b");
}

#[test]
fn tokens_format_dates_like_chrono() {
    let t = CaptureTime {
        year: 987,
        month: 3,
        day: 4,
        hour: 5,
        minute: 6,
        second: 59,
        nanosecond: 1_000_000_000,
    };
    let toks = tokens(&Metadata::empty(), "x.jpg", Some(t), "");
    let get = |name: &str| toks.iter().find(|(k, _)| k == name).unwrap().1.clone();
    assert_eq!(get("year"), "0987");
    assert_eq!(get("date"), "0987-03-04");
    assert_eq!(get("timestamp"), "09870304_050660");
    let far = tokens(&Metadata::empty(), "x.jpg", Some(time(12345, 1, 2)), "");
    assert_eq!(far[0].1, "+12345");
    let past = tokens(&Metadata::empty(), "x.jpg", Some(time(-5, 1, 2)), "");
    assert_eq!(past[0].1, "-0005");
}

#[test]
fn default_recipe_is_valid_copy() {
    let r = Recipe::default();
    assert!(r.validate().is_ok());
    assert_eq!(r.operation, "copy");
    assert_eq!(r.excluded_folders, vec!["DCIM", "exports", "Photos", "Pictures"]);
}

#[test]
fn validate_reports_each_rule() {
    let base = Recipe::default();
    let check = |r: Recipe| r.validate().unwrap_err();
    assert!(matches!(
        check(Recipe {
            operation: "delete".into(),
            ..base.clone()
        }),
        RecipeError::Operation
    ));
    assert!(matches!(
        check(Recipe {
            version: 2,
            ..base.clone()
        }),
        RecipeError::Version(2)
    ));
    assert!(matches!(
        check(Recipe {
            photo_folder: "".into(),
            ..base.clone()
        }),
        RecipeError::FolderName
    ));
    assert!(matches!(
        check(Recipe {
            video_folder: "a/b".into(),
            ..base.clone()
        }),
        RecipeError::FolderName
    ));
    for t in ["/abs", "a//b", "a\\b", "./x", "x/..", ""] {
        assert!(matches!(
            check(Recipe {
                folder_template: t.into(),
                ..base.clone()
            }),
            RecipeError::FolderTemplate
        ));
    }
    for t in ["a/b", "a\\b", ""] {
        assert!(matches!(
            check(Recipe {
                filename_template: t.into(),
                ..base.clone()
            }),
            RecipeError::FilenameTemplate
        ));
    }
    for k in ["  ", "a\nb", "a\rb"] {
        assert!(matches!(
            check(Recipe {
                keywords: vec!["ok".into(), k.into()],
                ..base.clone()
            }),
            RecipeError::Keywords
        ));
    }
    match check(Recipe {
        filename_template: "{stem}_{later}".into(),
        ..base.clone()
    }) {
        RecipeError::MalformedToken(t) => assert_eq!(t, "example_{later}"),
        other => panic!("{other:?}"),
    }
}

#[test]
fn recipe_error_messages() {
    assert_eq!(
        RecipeError::Version(2).message(),
        "Unsupported recipe version 2"
    );
    assert_eq!(
        RecipeError::MalformedToken("{x}".into()).message(),
        "Unknown or malformed recipe token: {x}"
    );
    assert_eq!(RecipeError::Operation.message(), "Operation must be copy or move");
}

#[test]
fn undated_files_go_to_undated() {
    let (path, warning) = Recipe::default()
        .destination(&Metadata::empty(), "dir/IMG_1.JPG", false, None)
        .unwrap();
    assert_eq!(path, "Photos/Undated/IMG_1.JPG");
    assert_eq!(
        warning.as_deref(),
        Some("No reliable capture date; review Undated")
    );
}

#[test]
fn videos_go_to_the_video_folder() {
    let (path, _) = Recipe::default()
        .destination(&dated(), "clip.mov", true, None)
        .unwrap();
    assert_eq!(path, "Video/2024/2024-07-18/clip.mov");
    let together = Recipe {
        separate_video: false,
        ..Recipe::default()
    };
    let (path, _) = together.destination(&dated(), "clip.mov", true, None).unwrap();
    assert_eq!(path, "Photos/2024/2024-07-18/clip.mov");
}

#[test]
fn filesystem_fallback_is_used_only_when_enabled() {
    let fallback = Some(time(2020, 1, 2));
    let (path, warning) = Recipe::default()
        .destination(&Metadata::empty(), "x.jpg", false, fallback)
        .unwrap();
    assert_eq!(path, "Photos/Undated/x.jpg");
    assert!(warning.is_some());
    let r = Recipe {
        filesystem_date_fallback: true,
        ..Recipe::default()
    };
    let (path, warning) = r
        .destination(&Metadata::empty(), "x.jpg", false, fallback)
        .unwrap();
    assert_eq!(path, "Photos/2020/2020-01-02/x.jpg");
    assert_eq!(
        warning.as_deref(),
        Some("Using filesystem modification date")
    );
}

#[test]
fn camera_clock_without_zone_is_flagged() {
    let (_, warning) = Recipe::default()
        .destination(&dated(), "x.jpg", false, None)
        .unwrap();
    assert_eq!(
        warning.as_deref(),
        Some("Timezone unspecified; recorded clock time preserved")
    );
}

#[test]
fn destination_without_extension_uses_bin() {
    let (path, _) = Recipe::default()
        .destination(&dated(), "notes/README", false, None)
        .unwrap();
    assert_eq!(path, "Photos/2024/2024-07-18/README.bin");
}

#[test]
fn filename_templates_use_tokens() {
    let r = Recipe {
        filename_template: "{timestamp}_{camera}".into(),
        ..Recipe::default()
    };
    let (path, _) = r.destination(&dated(), "DSC_1.CR3", false, None).unwrap();
    assert_eq!(path, "Photos/2024/2024-07-18/20240718_233022_Canon _ R5.CR3");
    let r = Recipe {
        filename_template: "{source_folder}".into(),
        folder_template: "{make}".into(),
        ..Recipe::default()
    };
    let (path, _) = r
        .destination(&dated(), "Trips/Rome/a.jpg", false, None)
        .unwrap();
    assert_eq!(path, "Photos/Unknown/Rome.jpg");
}

#[test]
fn rendered_folders_cannot_escape_the_output() {
    let mut meta = dated();
    meta.push_text("Make", "../..");
    let r = Recipe {
        folder_template: "{make}/{year}".into(),
        ..Recipe::default()
    };
    let (path, _) = r.destination(&meta, "a.jpg", false, None).unwrap();
    assert_eq!(path, "Photos/_/2024/a.jpg");
    for piece in path.split('/') {
        assert!(!piece.is_empty() && piece != "." && piece != "..");
    }
}

#[test]
fn destination_refuses_invalid_recipes_and_braced_values() {
    let r = Recipe {
        version: 3,
        ..Recipe::default()
    };
    assert!(matches!(
        r.destination(&dated(), "a.jpg", false, None),
        Err(RecipeError::Version(3))
    ));
    let mut meta = dated();
    meta.push_text("Make", "X{Y");
    let r = Recipe {
        folder_template: "{make}".into(),
        ..Recipe::default()
    };
    assert!(matches!(
        r.destination(&meta, "a.jpg", false, None),
        Err(RecipeError::MalformedToken(_))
    ));
}

#[test]
fn capture_date_prefers_original_then_creation_tags() {
    let mut meta = Metadata::empty();
    meta.push_text("QuickTime:CreateDate", "2021-05-06 07:08:09");
    meta.push_text("EXIF:DateTimeOriginal", "1700:01:01 00:00:00");
    let t = capture_date(&meta).unwrap();
    assert_eq!((t.year, t.month, t.day, t.hour, t.minute, t.second), (2021, 5, 6, 7, 8, 9));
}

#[test]
fn capture_date_reads_iso_and_date_only_values() {
    let mut meta = Metadata::empty();
    meta.push_text("DateTimeOriginal", "2024-07-18T10:11:12+02:00");
    let t = capture_date(&meta).unwrap();
    assert_eq!((t.year, t.hour, t.second), (2024, 10, 12));
    let mut meta = Metadata::empty();
    meta.push_text("CreateDate", "2019:12:31");
    assert_eq!(capture_date(&meta), Some(time(2019, 12, 31)));
}

#[test]
fn capture_date_needs_a_character_boundary_at_19_bytes() {
    let mut meta = Metadata::empty();
    meta.push_text("DateTimeOriginal", "2024:07:18 10:00:0é");
    assert!(capture_date(&meta).is_none());
}

#[test]
fn parsed_dates_are_kept_from_1800() {
    assert_eq!(accept_date_time(Some((1799, 1, 1, 0, 0, 0, 0))), None);
    assert_eq!(
        accept_date_time(Some((1800, 1, 2, 3, 4, 5, 6))),
        Some(CaptureTime {
            year: 1800,
            month: 1,
            day: 2,
            hour: 3,
            minute: 4,
            second: 5,
            nanosecond: 6
        })
    );
    assert_eq!(midnight(Some((1500, 2, 3))), Some(time(1500, 2, 3)));
    assert_eq!(midnight(None), None);
}

#[test]
fn tags_merge_file_recipe_and_folder_keywords() {
    let mut meta = Metadata::empty();
    meta.entries.push(MetaEntry {
        key: "XMP-dc:Subject".into(),
        value: MetaValue::List(vec![Some("b".into()), None, Some("a".into())]),
    });
    meta.push_text("IPTC:Keywords", "c");
    let r = Recipe {
        keywords: vec![" d ".into()],
        ..Recipe::default()
    };
    let folders = vec!["Summer".to_string(), "DCIM".into(), "dcim2".into(), "".into()];
    assert_eq!(
        r.tags(&meta, &folders),
        vec!["Summer", "a", "b", "c", "d", "dcim2"]
    );
}

#[test]
fn tags_follow_folder_selection_and_camera_choice() {
    let mut meta = Metadata::empty();
    meta.push_text("Make", "Canon");
    meta.entries.push(MetaEntry {
        key: "Model".into(),
        value: MetaValue::Number("5".into()),
    });
    let r = Recipe {
        selected_folders: vec!["Summer".into()],
        camera_tags: true,
        ..Recipe::default()
    };
    let folders = vec!["Summer".to_string(), "Winter".into()];
    assert_eq!(r.tags(&meta, &folders), vec!["5", "Canon", "Summer"]);
    let r = Recipe {
        folder_tags: false,
        ..Recipe::default()
    };
    assert!(r.tags(&meta, &folders).is_empty());
}

#[test]
fn file_keywords_are_sorted_and_unique() {
    let mut meta = Metadata::empty();
    meta.push_text("XMP:Subject", "z");
    meta.push_text("IPTC:Keywords", "z");
    meta.push_text("Description", "not a keyword");
    meta.entries.push(MetaEntry {
        key: "Keywords".into(),
        value: MetaValue::List(vec![Some("y".into()), Some("x".into())]),
    });
    assert_eq!(keywords_from(&meta), vec!["x", "y", "z"]);
}

#[test]
fn folder_keywords_discard_hidden_encoded_and_hash_like_names() {
    let folders: Vec<String> =
        vec!["1999".into(), "004. Selected Photos".into(), ".hidden".into(), "Caf%C3%A9".into()];
    assert_eq!(
        Recipe::default().tags(&Metadata::empty(), &folders),
        vec!["004. Selected Photos", "1999"]
    );
}

#[test]
fn meaningful_folder_names() {
    for name in ["1999", "004. Selected Photos", "Summer2024", "Caf%", "100%", "Wedding 2024"] {
        assert!(is_meaningful_folder_name(name), "{name}");
    }
    for name in [
        "",
        ".hidden",
        "Caf%C3%A9",
        "3f2a9c1e",
        "d41d8cd98f00b204e9800998ecf8427e",
        "123e4567-e89b-12d3-a456-426614174000",
        "a1b2c3d4e5f6g7h8i9j0k",
    ] {
        assert!(!is_meaningful_folder_name(name), "{name}");
    }
}

#[test]
fn numeric_keywords_read_back_as_exact_text() {
    let mut meta = Metadata::empty();
    meta.entries.push(MetaEntry {
        key: "XMP-dc:Subject".into(),
        value: MetaValue::List(vec![Some("1999".into()), Some("Summer São Paulo".into())]),
    });
    meta.entries.push(MetaEntry {
        key: "IPTC:Keywords".into(),
        value: MetaValue::Number("1999".into()),
    });
    assert_eq!(keywords_from(&meta), vec!["1999", "Summer São Paulo"]);
}

#[test]
fn event_names_come_from_the_folder_below_events() {
    assert_eq!(
        event_of_path("/archive/Events/Wedding 2024/High Res/portrait_Full.jpg").as_deref(),
        Some("Wedding 2024")
    );
    assert_eq!(event_of_path("/archive/Events/a.jpg"), None);
    assert_eq!(event_of_path("/archive/Trips/Rome/a.jpg"), None);
    assert_eq!(
        event_of_path("/Events/Old/Events/New/x/a.jpg").as_deref(),
        Some("New")
    );
}

#[test]
fn event_name_token_names_files() {
    let r = Recipe {
        filename_template: "{event_name}_{stem}".into(),
        ..Recipe::default()
    };
    assert!(r.validate().is_ok());
    let (path, warning) = r
        .destination(
            &Metadata::empty(),
            "/archive/Events/Wedding 2024/High Res/portrait_Full.jpg",
            false,
            None,
        )
        .unwrap();
    assert_eq!(path, "Photos/Undated/Wedding 2024_portrait_Full.jpg");
    assert_eq!(warning.as_deref(), Some("No reliable capture date; review Undated"));
    let r = Recipe {
        filename_template: "{event_name}{stem}".into(),
        ..Recipe::default()
    };
    let (path, _) = r.destination(&Metadata::empty(), "/archive/Trips/a.jpg", false, None).unwrap();
    assert_eq!(path, "Photos/Undated/a.jpg");
}

#[test]
fn event_folders_become_tags() {
    let r = Recipe {
        folder_tags: false,
        event_folder_tags: true,
        ..Recipe::default()
    };
    let folders: Vec<String> =
        vec!["Archive".into(), "Events".into(), "Wedding 2024".into(), "High Res".into()];
    assert_eq!(r.tags(&Metadata::empty(), &folders), vec!["Wedding 2024"]);
    let r = Recipe {
        event_folder_tags: false,
        ..r
    };
    assert!(r.tags(&Metadata::empty(), &folders).is_empty());
}

#[test]
fn normalized_names_are_cleaned_without_normalizing_again() {
    assert_eq!(clean_normalized(" a/b. "), "a_b");
    assert_eq!(clean_normalized(""), "Unknown");
}
