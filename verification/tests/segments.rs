use kdft::error::EwfError;
use kdft::image::MAX_CHUNK_COUNT;
use kdft::segments::{
    directory_of, order_by_extension, order_found, order_segments, segment_dir, segment_patterns,
    validate_and_reorder_segments,
};

#[test]
fn accepts_chunk_count_for_500gb_ftk_acquisition() {
    let chunks = 1_000_215_216_usize.div_ceil(64);
    assert_eq!(chunks, 15_628_363);
    assert!(chunks <= MAX_CHUNK_COUNT);
}

#[test]
fn bare_filename_globs_current_dir_not_root() {
    assert_eq!(segment_dir("bare.E01"), ".");
}

#[test]
fn directory_qualified_filename_keeps_its_parent() {
    assert_eq!(segment_dir("/evidence/case/bare.E01"), "/evidence/case");
    assert_eq!(segment_dir("sub/bare.E01"), "sub");
}

#[test]
fn missing_and_empty_parents_are_the_current_directory() {
    assert_eq!(directory_of(None), ".");
    assert_eq!(directory_of(Some(String::new())), ".");
    assert_eq!(directory_of(Some("x".to_string())), "x");
}

#[test]
fn patterns_follow_the_extension() {
    assert_eq!(
        segment_patterns("/ev", "disk[1]", "e01"),
        vec![
            "/ev/disk[[]1[]].[Ee][0-9][0-9]",
            "/ev/disk[[]1[]].[Ee][A-Za-z][A-Za-z]"
        ]
    );
    assert_eq!(
        segment_patterns("/ev[1]", "disk", "E01")[0],
        "/ev[[]1[]]/disk.[Ee][0-9][0-9]"
    );
    assert_eq!(
        segment_patterns(".", "a*?", "Lx01"),
        vec![
            "./a[*][?].[Ll][x-z][0-9][0-9]",
            "./a[*][?].[Ll][x-z][A-Za-z][A-Za-z]"
        ]
    );
}

#[test]
fn extensions_order_regardless_of_case_and_stably() {
    let extensions: Vec<String> = ["e10", "E02", "EAA", "e02", "", "E1"]
        .iter()
        .map(|s| s.to_string())
        .collect();
    assert_eq!(order_by_extension(&extensions), vec![4, 1, 3, 5, 0, 2]);
    let found = vec![0, 1, 2, 3, 4, 5];
    assert_eq!(
        order_found("x".to_string(), found, extensions).unwrap(),
        vec![4, 1, 3, 5, 0, 2]
    );
}

#[test]
fn directories_of_other_plain_paths() {
    assert_eq!(segment_dir(""), ".");
    assert_eq!(segment_dir("/bare.E01"), "/");
    assert_eq!(segment_dir("./bare.E01"), ".");
    assert_eq!(segment_dir("../bare.E01"), "..");
    assert_eq!(segment_dir("a/b.c/../d.E01"), "a/b.c/..");
}

#[test]
fn nothing_found_is_an_error() {
    let error = order_found::<u8>("x.E01".to_string(), vec![], vec![]).unwrap_err();
    assert_eq!(error.message(), "no segment files found matching: x.E01");
}

#[test]
fn segments_are_put_into_the_order_of_their_numbers() {
    let reordered = validate_and_reorder_segments(vec!["c", "a", "b"], vec![3, 1, 2]).unwrap();
    assert_eq!(reordered, vec!["a", "b", "c"]);
    assert_eq!(
        validate_and_reorder_segments(vec!["a", "b"], vec![1, 3]).unwrap_err(),
        EwfError::SegmentGap { expected: 2, got: 3 }
    );
    assert_eq!(
        validate_and_reorder_segments(vec!["a", "b"], vec![1, 1]).unwrap_err(),
        EwfError::SegmentGap { expected: 2, got: 1 }
    );
    assert_eq!(
        validate_and_reorder_segments(vec!["a"], vec![0]).unwrap_err(),
        EwfError::SegmentGap { expected: 1, got: 0 }
    );
    assert_eq!(order_segments(vec![2, 3, 1]).unwrap(), vec![2, 0, 1]);
    assert_eq!(order_segments(vec![]).unwrap(), Vec::<usize>::new());
}

#[test]
fn patterns_find_files_in_directories_of_any_name() {
    for directory in ["/ev[1]", "/a*b", "/what?", "."] {
        let patterns: Vec<glob::Pattern> = segment_patterns(directory, "disk[x]", "E01")
            .iter()
            .map(|p| glob::Pattern::new(p).unwrap())
            .collect();
        let found = |name: &str| patterns.iter().any(|p| p.matches(&format!("{directory}/{name}")));
        assert!(found("disk[x].E01") && found("disk[x].e99") && found("disk[x].EAA"));
        assert!(!found("diskx.E01") && !found("disk[x].Ex01") && !found("disk[x].L01"));
    }
}
