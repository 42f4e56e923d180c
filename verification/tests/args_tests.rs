use filescraper::config::{parse_special_options, Arguments, CliArgs, OptionalHandling, TargetMode};
use filescraper::filter::FilterMode;
use filescraper::paths::transform_source_to_target_path;

fn cli_args(
    file_extensions: Option<OptionalHandling>,
    folders: Option<OptionalHandling>,
) -> CliArgs {
    CliArgs {
        source_root_file_path: "source".to_string(),
        target_root_file_path: "target".to_string(),
        file_extensions,
        folders,
        follow_links: false,
        verbose: 0,
    }
}

#[test]
fn test_parse_special_options() {
    let input = "Ignore .jpg .pdf .mp3";
    let result = parse_special_options(input);
    assert!(result.is_ok());
    let parsed = result.ok().unwrap();
    let (mode, names) = (parsed.target, parsed.values);
    assert_eq!(mode, TargetMode::Ignore);
    assert!(names.contains(&".jpg".to_string()));
    assert!(names.contains(&".pdf".to_string()));
    assert!(names.contains(&".mp3".to_string()));
}

#[test]
fn test_parse_special_options_not_enough_options_supplied() {
    let input = "Target";
    let result = parse_special_options(input);
    assert!(result.is_err());
}

#[test]
fn test_parse_special_options_invalid_mode() {
    let input = "Inore .pdf .wav";
    let result = parse_special_options(input);
    assert!(result.is_err())
}

#[test]
fn test_convert_cli_args_to_args() {
    let args = cli_args(
        Some(OptionalHandling {
            target: TargetMode::Ignore,
            values: vec![".jpg".to_string(), ".pdf".to_string()],
        }),
        None,
    );
    let result = args.convert();
    assert_eq!(result.follow_links, false);
    let target = match result.folders {
        FilterMode::Excluding(_) => TargetMode::Ignore,
        FilterMode::Including(_) => TargetMode::Target,
    };
    assert_eq!(target, TargetMode::Ignore);
    let file_extensions = match result.file_extensions {
        FilterMode::Excluding(ext) => ext,
        FilterMode::Including(_) => {
            panic!("Wrong mode");
        },
    };
    assert!(file_extensions.contains(&".jpg".to_string()));
    assert!(file_extensions.contains(&".pdf".to_string()));
}

#[test]
fn test_should_copy_folder() {
    let args = cli_args(
        None,
        Some(OptionalHandling {
            target: TargetMode::Ignore,
            values: vec!["bin".to_string(), "target".to_string()],
        }),
    );
    let result: Arguments = args.convert();
    let should_copy = result.should_copy("test/bin/", true);
    assert!(!should_copy);

    let should_copy = result.should_copy("test/file/", true);
    assert!(should_copy);

    let should_copy = result.should_copy("test/bin/test/", true);
    assert!(!should_copy);
}

#[test]
fn test_should_copy_file() {
    let args = cli_args(
        Some(OptionalHandling {
            target: TargetMode::Ignore,
            values: vec![".jpg".to_string(), ".pdf".to_string()],
        }),
        None,
    );
    let result: Arguments = args.convert();
    let should_copy = result.should_copy("test.jpg", false);
    assert!(!should_copy);

    let should_copy = result.should_copy("file.wav", false);
    assert!(should_copy);

    let should_copy = result.should_copy("/bin/test.xlsx", false);
    assert!(should_copy);
}

#[test]
fn test_transform_source_to_target_path() {
    let source_root_path = "test/bin";
    let target_root_path = "tar/bin2";
    let result = transform_source_to_target_path(source_root_path, target_root_path, "test/bin/path");
    let path = result.unwrap();
    assert_eq!(path, "tar/bin2/path");
}

#[test]
fn it_works() {
    let result = 2 + 2;
    assert_eq!(result, 4);
}
