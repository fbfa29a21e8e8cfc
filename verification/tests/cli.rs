use kdft::cli::{
    detected_database, parse_optional_json_object, path_update, processing_profile,
    read_file_system_requested, report_directory, require_object, ArgumentError, Outcome, PathUpdate,
    ProcessingProfile,
};

#[test]
fn json_options_hold_objects() {
    let value = parse_optional_json_object(Some("{\"a\": [1]}".to_string()), "x").unwrap();
    assert_eq!(value["a"][0], 1);
    let empty = parse_optional_json_object(None, "x").unwrap();
    assert_eq!(empty.as_object().unwrap().len(), 0);
}

#[test]
fn other_json_is_refused() {
    let error = parse_optional_json_object(Some("[1]".to_string()), "source-ref-json").unwrap_err();
    assert_eq!(error, ArgumentError::NotObject { field: "source-ref-json".to_string() });
    assert_eq!(error.message(), "--source-ref-json must be a JSON object");
    let error = parse_optional_json_object(Some("{".to_string()), "item-ref-json").unwrap_err();
    assert_eq!(error.message(), "parsing --item-ref-json as JSON");
    assert!(matches!(error, ArgumentError::NotJson { ref cause, .. } if cause.starts_with("EOF")));
    let error = require_object(Err("bad".to_string()), "f").unwrap_err();
    assert_eq!(
        error,
        ArgumentError::NotJson { field: "f".to_string(), cause: "bad".to_string() }
    );
}

#[test]
fn paths_are_set_or_cleared_but_not_both() {
    assert_eq!(path_update(Some("/x"), false, "config-root"), Ok(Some(PathUpdate::Replace("/x"))));
    assert_eq!(path_update::<&str>(None, true, "config-root"), Ok(Some(PathUpdate::Clear)));
    assert_eq!(path_update::<&str>(None, false, "config-root"), Ok(None));
    let error = path_update(Some("/x"), true, "config-root").unwrap_err();
    assert_eq!(error.message(), "--config-root conflicts with --clear-config-root");
}

#[test]
fn metadata_only_reads_no_content() {
    assert_eq!(
        processing_profile(true, false),
        ProcessingProfile { capture_content: false, parse_emails: false, parse_browsers: false }
    );
    assert_eq!(
        processing_profile(false, true),
        ProcessingProfile { capture_content: true, parse_emails: false, parse_browsers: true }
    );
    assert!(processing_profile(false, false).parse_emails);
}

#[test]
fn the_file_system_is_read_unless_told_otherwise() {
    assert!(read_file_system_requested(None, false));
    assert!(!read_file_system_requested(None, true));
    assert!(!read_file_system_requested(Some(false), false));
    assert!(read_file_system_requested(Some(true), true));
}

#[test]
fn report_directories_and_labels() {
    assert_eq!(report_directory(Some("out".to_string())), Some("out".to_string()));
    assert_eq!(report_directory(Some(String::new())), None);
    assert_eq!(report_directory(None), None);
    assert_eq!(detected_database("chromium"), "chromium_history_database");
}

#[test]
fn a_missing_json_option_is_an_empty_object() {
    let missing = parse_optional_json_object(None, "x").unwrap();
    let given = parse_optional_json_object(Some("{}".to_string()), "x").unwrap();
    assert_eq!(missing, given);
}

#[test]
fn outcomes_are_told_in_one_line() {
    let id = || "7".to_string();
    let cases = vec![
        (
            Outcome::CaseCreated { id: id(), path: "/c".to_string() },
            "Created case 7 at /c",
        ),
        (
            Outcome::EvidenceAttached { id: id() },
            "Attached evidence source 7; no indexing was run.",
        ),
        (
            Outcome::HistoryImported {
                label: "Chrome".to_string(),
                path: "/p/History".to_string(),
                records: "12".to_string(),
                visits: "9".to_string(),
                profile: "/p".to_string(),
            },
            "Detected Chrome history database at /p/History - parsed 12 records (9 visits) from profile /p.",
        ),
        (Outcome::FolderCreated { id: id() }, "Created bookmark folder 7"),
        (Outcome::BookmarkCreated { id: id() }, "Created bookmark 7"),
        (Outcome::ItemAdded { id: id() }, "Added bookmark item 7"),
        (
            Outcome::ReportWritten { path: "r.html".to_string(), sha256: "ab".to_string() },
            "Wrote report r.html (file SHA-256 ab)",
        ),
    ];
    for (outcome, line) in cases {
        assert_eq!(outcome.line(), line);
    }
}
