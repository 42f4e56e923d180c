use filescraper::config::{as_hash_set, parse_special_options, CliArgs, OptionalHandling, TargetMode};
use filescraper::copying::{summarize_outcomes, CopyError, CopyOutcome};
use filescraper::filter::{file_extension, normalize_extension, path_contains_folder, FilterMode};
use filescraper::paths::transform_source_to_target_path;

#[test]
fn normalization_adds_one_leading_dot() {
    assert_eq!(normalize_extension("jpg"), ".jpg");
    assert_eq!(normalize_extension(".jpg"), ".jpg");
    assert_eq!(normalize_extension(""), ".");
}

#[test]
fn normalization_is_idempotent_on_samples() {
    let once = normalize_extension("pdf");
    let twice = normalize_extension(once.as_str());
    assert_eq!(once, twice);
    assert_eq!(normalize_extension("jpg"), normalize_extension(".jpg"));
}

#[test]
fn extension_is_taken_after_the_last_dot() {
    assert_eq!(file_extension("test.jpg"), ".jpg");
    assert_eq!(file_extension("archive.tar.gz"), ".gz");
    assert_eq!(file_extension("README"), "");
    assert_eq!(file_extension("trailing."), ".");
}

#[test]
fn excluding_extension_filter_admits_everything_but_its_set() {
    let filter = FilterMode::Excluding(vec![".jpg".to_string(), ".pdf".to_string()]);
    assert!(!filter.should_copy_file("photo.jpg"));
    assert!(!filter.should_copy_file("paper.pdf"));
    assert!(filter.should_copy_file("song.mp3"));
    assert!(filter.should_copy_file("README"));
}

#[test]
fn including_extension_filter_admits_only_its_set() {
    let filter = FilterMode::Including(vec![".jpg".to_string()]);
    assert!(filter.should_copy_file("photo.jpg"));
    assert!(!filter.should_copy_file("paper.pdf"));
    assert!(!filter.should_copy_file("README"));
}

#[test]
fn file_without_extension_matches_only_an_explicit_empty_entry() {
    let including_empty = FilterMode::Including(vec!["".to_string()]);
    assert!(including_empty.should_copy_file("README"));
    let excluding_empty = FilterMode::Excluding(vec!["".to_string()]);
    assert!(!excluding_empty.should_copy_file("README"));
    let excluding_other = FilterMode::Excluding(vec![".jpg".to_string()]);
    assert!(excluding_other.should_copy_file("README"));
}

#[test]
fn folder_filter_tests_every_segment() {
    let filter = FilterMode::Excluding(vec!["bin".to_string(), "target".to_string()]);
    assert!(!filter.should_copy_folder("test/bin/"));
    assert!(filter.should_copy_folder("test/file/"));
    assert!(!filter.should_copy_folder("test/bin/test/"));
    let targeting = FilterMode::Including(vec!["bin".to_string()]);
    assert!(targeting.should_copy_folder("test/bin/sub"));
    assert!(!targeting.should_copy_folder("test/file/"));
}

#[test]
fn path_contains_folder_compares_whole_segments() {
    assert!(path_contains_folder("a/b/c", "b"));
    assert!(!path_contains_folder("a/b/c", "d"));
    assert!(!path_contains_folder("a/bb/c", "b"));
    assert!(!path_contains_folder("//a", ""));
    assert!(path_contains_folder("/usr/local/bin", "bin"));
}

#[test]
fn mapping_rebases_the_relative_remainder() {
    let mapped = transform_source_to_target_path("test/bin", "tar/bin2", "test/bin/a/b.txt");
    assert_eq!(mapped.unwrap(), "tar/bin2/a/b.txt");
    let mapped = transform_source_to_target_path("/src", "/dst", "/src/x");
    assert_eq!(mapped.unwrap(), "/dst/x");
    let mapped = transform_source_to_target_path("a/b", "t", "a/b");
    assert_eq!(mapped.unwrap(), "t");
}

#[test]
fn mapping_fails_outside_the_source_root() {
    assert!(transform_source_to_target_path("test/bin", "tar", "other/path").is_err());
    assert!(transform_source_to_target_path("/abs/root", "tar", "rel/path").is_err());
    assert!(transform_source_to_target_path("a/b/c", "tar", "a/b").is_err());
}

#[test]
fn empty_filters_include_every_entry() {
    let args = CliArgs {
        source_root_file_path: "src".to_string(),
        target_root_file_path: "dst".to_string(),
        file_extensions: None,
        folders: None,
        follow_links: false,
        verbose: 0,
    }
    .convert();
    assert!(args.should_copy("src/a/b.txt", false));
    assert!(args.should_copy("src/a", true));
    assert!(args.should_copy("src/no_extension", false));
    let mapped = args.transform_source_to_target_path("src/a/b.txt");
    assert_eq!(mapped.unwrap(), "dst/a/b.txt");
}

#[test]
fn undeterminable_file_names_are_excluded() {
    let args = CliArgs {
        source_root_file_path: "src".to_string(),
        target_root_file_path: "dst".to_string(),
        file_extensions: None,
        folders: None,
        follow_links: false,
        verbose: 0,
    }
    .convert();
    assert!(!args.should_copy("", false));
    assert!(!args.should_copy("/", false));
    assert!(!args.should_copy("a/..", false));
    assert!(!args.should_copy("a/.", false));
}

#[test]
fn one_failing_item_leaves_the_rest_succeeded() {
    let mut outcomes: Vec<CopyOutcome> = Vec::new();
    for _ in 0..4 {
        outcomes.push(CopyOutcome::Success);
    }
    outcomes.push(CopyOutcome::Failure(CopyError::CopyIo("locked target".to_string())));
    let summary = summarize_outcomes(&outcomes);
    assert_eq!(summary.succeeded, 4);
    assert_eq!(summary.failed, 1);
}

#[test]
fn summary_counts_each_error_kind() {
    let outcomes = vec![
        CopyOutcome::Failure(CopyError::PathMapping("bad root".to_string())),
        CopyOutcome::Failure(CopyError::DirectoryCreation("denied".to_string())),
        CopyOutcome::Failure(CopyError::CopyIo("disk full".to_string())),
        CopyOutcome::Success,
    ];
    let summary = summarize_outcomes(&outcomes);
    assert_eq!(summary.succeeded, 1);
    assert_eq!(summary.failed, 3);
}

#[test]
fn parse_reports_the_exact_error() {
    assert_eq!(parse_special_options("Target").unwrap_err(), "Not enough arguments supplied");
    assert_eq!(parse_special_options("Wrong .jpg").unwrap_err(), "Invalid target mode specified");
    assert_eq!(parse_special_options("").unwrap_err(), "Not enough arguments supplied");
    // a leading whitespace run leaves an empty first piece, which is no mode
    assert_eq!(parse_special_options(" Target .jpg").unwrap_err(), "Invalid target mode specified");
}

#[test]
fn parse_splits_on_whitespace_runs() {
    let parsed = parse_special_options("Target\t.jpg  .pdf").unwrap();
    assert_eq!(parsed.target, TargetMode::Target);
    assert_eq!(parsed.values, vec![".jpg".to_string(), ".pdf".to_string()]);
}

#[test]
fn as_hash_set_removes_duplicates_and_keeps_membership() {
    let input = vec!["x".to_string(), "y".to_string(), "x".to_string()];
    let set = as_hash_set(input);
    assert_eq!(set.len(), 2);
    assert!(set.contains(&"x".to_string()));
    assert!(set.contains(&"y".to_string()));
}

#[test]
fn convert_normalizes_and_deduplicates_extensions() {
    let args = CliArgs {
        source_root_file_path: "s".to_string(),
        target_root_file_path: "t".to_string(),
        file_extensions: Some(OptionalHandling {
            target: TargetMode::Target,
            values: vec!["jpg".to_string(), ".jpg".to_string(), "pdf".to_string()],
        }),
        folders: None,
        follow_links: true,
        verbose: 2,
    }
    .convert();
    assert!(args.follow_links);
    assert_eq!(args.verbose, 2);
    match args.file_extensions {
        FilterMode::Including(set) => {
            assert_eq!(set.len(), 2);
            assert!(set.contains(&".jpg".to_string()));
            assert!(set.contains(&".pdf".to_string()));
        },
        FilterMode::Excluding(_) => panic!("Wrong mode"),
    }
}
