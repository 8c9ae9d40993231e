use ntfs_extract::error::ExtractError;
use ntfs_extract::paths::{escape_colons_of, escape_final_component_of, remove_trailing_slash, split_path};
use ntfs_extract::plan::{
    after_create, drive_root, index_allocation_positions, index_path, needs_valid_data_length, plan_extraction, raw_device_path,
    same_chars, stream_kind, CreateResult, Outcome, Step,
};
use ntfs_extract::stream::StreamKind;
use ntfs_extract::vdl::AttributeType;

#[test]
fn trailing_slash_is_removed_once() {
    assert_eq!(remove_trailing_slash("out/dir/".to_string()), "out/dir");
    assert_eq!(remove_trailing_slash("out/dir//".to_string()), "out/dir/");
    assert_eq!(remove_trailing_slash("out/dir".to_string()), "out/dir");
    assert_eq!(remove_trailing_slash(String::new()), "");
}

#[test]
fn split_path_at_last_slash() {
    assert_eq!(split_path("a/b/c.txt"), ("a/b".to_string(), "c.txt".to_string()));
    assert_eq!(split_path("/c.txt"), (String::new(), "c.txt".to_string()));
    assert_eq!(split_path("c.txt"), (String::new(), "c.txt".to_string()));
    assert_eq!(split_path("a/"), ("a".to_string(), String::new()));
}

#[test]
fn colons_are_escaped() {
    assert_eq!(escape_colons_of("file:stream:x"), "file%3Astream%3Ax");
    assert_eq!(escape_colons_of("plain"), "plain");
    assert_eq!(escape_final_component_of("C:/out/file:ads"), "C:/out/file%3Aads");
}

#[test]
fn plan_for_unnamed_stream() {
    let plan = plan_extraction("/Windows/notes.txt", "/tmp/out", None, "");
    assert_eq!(plan.primary, "/tmp/out/Windows/notes.txt");
    assert_eq!(plan.directory, "/tmp/out/Windows");
    assert_eq!(plan.slack, "/tmp/out/Windows/notes.txt.FileSlack");
    assert!(!plan.encrypt);
    assert!(!plan.alternate);
    assert!(plan.index_blocks);
    assert!(!plan.boot);
}

#[test]
fn plan_for_encrypted_stream_adds_enc() {
    let plan = plan_extraction("/dir/report.pdf", "out", Some("secret"), "");
    assert_eq!(plan.primary, "out/dir/report.pdf.enc");
    assert!(plan.encrypt);
    let plan = plan_extraction("/dir/README", "out", Some("secret"), "");
    assert_eq!(plan.primary, "out/dir/README.enc");
    let plan = plan_extraction("/dir/README", "out", Some(""), "");
    assert_eq!(plan.primary, "out/dir/README");
    assert!(!plan.encrypt);
}

#[test]
fn plan_escapes_alternate_stream_name() {
    let plan = plan_extraction("/docs/a.txt:Zone.Identifier", "/x:y/out", None, "Zone.Identifier");
    assert_eq!(plan.primary, "/x:y/out/docs/a.txt%3AZone.Identifier");
    assert_eq!(plan.directory, "/x:y/out/docs");
    let last = plan.primary.rsplit('/').next().unwrap();
    assert!(!last.contains(':'));
    assert!(plan.alternate);
    assert!(!plan.index_blocks);
}

#[test]
fn plan_recognises_boot_file() {
    assert!(plan_extraction("/$Boot", "out", None, "").boot);
    assert!(plan_extraction("/$Boot", "out", Some("pw"), "").boot);
    assert!(!plan_extraction("/$BootX", "out", None, "").boot);
    assert!(!plan_extraction("/$boot", "out", None, "").boot);
}

#[test]
fn index_and_drive_paths() {
    assert_eq!(index_path("out/dir", "$I30"), "out/dir%3A$I30.idx");
    assert_eq!(raw_device_path("C"), "\\\\.\\C:");
    assert_eq!(drive_root("C"), "C:\\");
}

#[test]
fn chars_compare() {
    assert!(same_chars("abc", "abc"));
    assert!(!same_chars("abc", "abd"));
    assert!(!same_chars("abc", "ab"));
}

#[test]
fn existing_output_is_skipped_not_failed() {
    assert_eq!(after_create(CreateResult::Created), Step::Proceed);
    assert_eq!(after_create(CreateResult::AlreadyExists), Step::Finish(Outcome::AlreadySkipped));
    assert_eq!(after_create(CreateResult::Failed), Step::Fail(ExtractError::Open));
}

#[test]
fn kind_of_stream() {
    assert_eq!(stream_kind(true, false, Some(5)), Ok(StreamKind::Alternate));
    assert_eq!(stream_kind(true, false, None), Ok(StreamKind::Alternate));
    assert_eq!(stream_kind(false, true, None), Ok(StreamKind::Whole));
    assert_eq!(stream_kind(false, false, Some(7)), Ok(StreamKind::Bounded { valid_length: 7 }));
    assert_eq!(stream_kind(false, false, None), Err(ExtractError::VdlUnavailable));
    assert!(needs_valid_data_length(false, false));
    assert!(!needs_valid_data_length(true, false));
    assert!(!needs_valid_data_length(false, true));
}

#[test]
fn index_attributes_are_selected_in_order() {
    let types = vec![
        AttributeType::Other,
        AttributeType::IndexAllocation,
        AttributeType::Data,
        AttributeType::IndexAllocation,
    ];
    assert_eq!(index_allocation_positions(&types), vec![1, 3]);
    assert!(index_allocation_positions(&vec![AttributeType::Data]).is_empty());
}
