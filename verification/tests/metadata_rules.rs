use photo_hat_engine::metadata::{
    answer_line, can_embed, capabilities, command_lines, first_reading, get, is_photo, is_video,
    keyword_args, missing_keyword, parse_extensions, path_string, read_args, ready_line,
    xmp_args, MetaEntry, MetaValue, Metadata, ToolError,
};

#[test]
fn get_matches_exact_or_last_segment() {
    let mut m = Metadata::empty();
    m.push_text("IFD0:Model", "R5");
    m.entries.push(MetaEntry {
        key: "Composite:ImageSize".into(),
        value: MetaValue::Number("24".into()),
    });
    m.entries.push(MetaEntry {
        key: "EXIF:Flash".into(),
        value: MetaValue::Other,
    });
    assert_eq!(get(&m, &["Model"]).as_deref(), Some("R5"));
    assert_eq!(get(&m, &["IFD0:Model"]).as_deref(), Some("R5"));
    assert_eq!(get(&m, &["EXIF:Model"]), None);
    assert_eq!(get(&m, &["Flash", "ImageSize"]).as_deref(), Some("24"));
    assert_eq!(get(&m, &[]), None);
}

#[test]
fn allow_lists() {
    assert!(is_video("mov") && is_video("3gp") && !is_video("MOV"));
    assert!(is_photo("cr3") && is_photo("x3f") && !is_photo("mov"));
    assert!(can_embed("heic") && !can_embed("tif"));
}

#[test]
fn capabilities_keep_allowed_formats_in_order() {
    let exts: Vec<String> = ["jpg", "txt", "mov", "dng"].iter().map(|s| s.to_string()).collect();
    let caps = capabilities(&exts);
    let names: Vec<&str> = caps.iter().map(|c| c.extension.as_str()).collect();
    assert_eq!(names, vec!["jpg", "mov", "dng"]);
    assert!(caps.iter().all(|c| c.read && c.preview == "metadata-only"));
    assert_eq!(caps.iter().map(|c| c.embed).collect::<Vec<_>>(), vec![true, false, true]);
}

#[test]
fn listed_extensions_are_lowercase_words() {
    assert_eq!(
        parse_extensions("JPG  MOV\ntxt a-b \u{dc}n jpg 3FR"),
        vec!["3fr", "jpg", "mov", "txt"]
    );
    assert!(parse_extensions("  \n ").is_empty());
}

#[test]
fn commands_end_with_their_sequence_number() {
    let args = vec!["-json".to_string(), "a.jpg".into()];
    assert_eq!(command_lines(&args, 3).unwrap(), vec!["-json", "a.jpg", "-execute3"]);
    let bad = vec!["a\nb".to_string()];
    assert!(matches!(command_lines(&bad, 1), Err(ToolError::NewlineInArgument)));
    assert_eq!(ready_line(12), "{ready12}");
}

#[test]
fn answers_collect_lines_until_ready() {
    let mut answer = String::new();
    assert!(!answer_line(&mut answer, "[{", 4));
    assert!(!answer_line(&mut answer, "{ready3}", 4));
    assert!(answer_line(&mut answer, "{ready4}  \r", 4));
    assert_eq!(answer, "[{\n{ready3}\n");
}

#[test]
fn read_arguments_and_first_reading() {
    assert_eq!(
        read_args("/a b.jpg").unwrap(),
        vec!["-json", "-G1", "-n", "-charset", "filename=UTF8", "/a b.jpg"]
    );
    assert!(read_args("/a\nb.jpg").is_err());
    assert!(matches!(first_reading(vec![]), Err(ToolError::EmptyResponse)));
    let mut failed = Metadata::empty();
    failed.push_text("ExifTool:Error", "File not found");
    match first_reading(vec![failed]) {
        Err(ToolError::Reported(m)) => assert_eq!(m, "File not found"),
        other => panic!("{other:?}"),
    }
    let mut ok = Metadata::empty();
    ok.push_text("Model", "R5");
    assert_eq!(first_reading(vec![ok, Metadata::empty()]).unwrap().entries.len(), 1);
}

#[test]
fn keyword_arguments_limit_iptc_to_64_bytes() {
    let long = "é".repeat(33);
    let keywords = vec!["a".to_string(), long.clone()];
    assert_eq!(
        keyword_args("/x.jpg", &keywords, true).unwrap(),
        vec![
            "-overwrite_original".to_string(),
            "-charset".into(),
            "filename=UTF8".into(),
            "-XMP-dc:Subject=".into(),
            "-XMP-dc:Subject+=a".into(),
            format!("-XMP-dc:Subject+={long}"),
            "-IPTC:CodedCharacterSet=UTF8".into(),
            "-IPTC:Keywords=".into(),
            "-IPTC:Keywords+=a".into(),
            "/x.jpg".into(),
        ]
    );
    assert_eq!(keyword_args("/x.xmp", &keywords, false).unwrap().len(), 7);
}

#[test]
fn keyword_read_back_finds_the_first_missing() {
    let expected = vec!["a".to_string(), "b".into(), "c".into()];
    let actual = vec!["c".to_string(), "a".into()];
    assert_eq!(missing_keyword(&expected, &actual).as_deref(), Some("b"));
    assert_eq!(missing_keyword(&actual, &expected), None);
}

#[test]
fn sidecar_creation_arguments() {
    assert_eq!(
        xmp_args("/s.cr2", "/d.xmp").unwrap(),
        vec!["-tagsFromFile", "/s.cr2", "-all:all", "-o", "/d.xmp"]
    );
    assert!(xmp_args("/s.cr2", "/d\r.xmp").is_err());
}

#[test]
fn paths_with_newlines_are_refused() {
    assert_eq!(path_string("/a/b.jpg").unwrap(), "/a/b.jpg");
    assert!(path_string("/a\n/b.jpg").is_err());
    assert!(path_string("/a\r/b.jpg").is_err());
}
