use fast_copy::cli::parse_cli;
use fast_copy::error::CopyError;
use fast_copy::path::FilePath;

fn args(words: &[&str]) -> Vec<String> {
    words.iter().map(|word| word.to_string()).collect()
}

fn at(names: &[&str]) -> FilePath {
    FilePath::new(b"/".to_vec(), names.iter().map(|name| name.as_bytes().to_vec()).collect())
}

#[test]
fn two_arguments_are_the_source_and_the_destination() {
    assert_eq!(
        parse_cli(&args(&["fast-copy-rs", "/src", "backup/dst"])),
        Ok(("/src".to_string(), "backup/dst".to_string()))
    );
}

#[test]
fn any_other_number_of_arguments_is_refused() {
    assert_eq!(parse_cli(&args(&[])), Err(CopyError::InvalidArguments));
    assert_eq!(parse_cli(&args(&["fast-copy-rs"])), Err(CopyError::InvalidArguments));
    assert_eq!(parse_cli(&args(&["fast-copy-rs", "/src"])), Err(CopyError::InvalidArguments));
    assert_eq!(
        parse_cli(&args(&["fast-copy-rs", "/src", "/dst", "/more"])),
        Err(CopyError::InvalidArguments)
    );
}

#[test]
fn each_kind_of_error_has_its_line() {
    let cause = "permission denied".to_string();
    assert_eq!(
        CopyError::InvalidArguments.message(""),
        "The only allowed parameters are SOURCE and DEST."
    );
    assert_eq!(
        CopyError::DirectoryUnreadable { path: at(&["src", "x"]), cause: cause.clone() }
            .message("/src/x"),
        "Unable to read contents of /src/x: permission denied"
    );
    assert_eq!(
        CopyError::DestinationRootUncreatable { path: at(&["dst"]), cause: cause.clone() }
            .message("/dst"),
        "Unable to create /dst: permission denied"
    );
    assert_eq!(
        CopyError::DestinationParentUncreatable { path: at(&["dst", "a.txt"]), cause: cause.clone() }
            .message("/dst/a.txt"),
        "Unable to create /dst/a.txt: permission denied"
    );
    assert_eq!(
        CopyError::SourceEqualsDestination { path: at(&["src", "a.txt"]) }.message("/src/a.txt"),
        "Unable to copy /src/a.txt: SOURCE is DEST"
    );
    assert_eq!(
        CopyError::CopyFailed { path: at(&["src", "a.txt"]), cause }.message("/src/a.txt"),
        "Unable to copy /src/a.txt: permission denied"
    );
}

#[test]
fn each_error_but_a_wrong_command_line_names_a_path() {
    assert_eq!(CopyError::InvalidArguments.path(), None);
    assert_eq!(CopyError::InvalidArguments.action(), "");
    assert_eq!(CopyError::InvalidArguments.reason(), "");
    let error = CopyError::CopyFailed { path: at(&["src", "a.txt"]), cause: "gone".to_string() };
    assert_eq!(error.path(), Some(&at(&["src", "a.txt"])));
    assert_eq!(error.action(), "copy");
    assert_eq!(error.reason(), "gone");
    let error = CopyError::SourceEqualsDestination { path: at(&["src", "a.txt"]) };
    assert_eq!(error.path(), Some(&at(&["src", "a.txt"])));
    assert_eq!(error.reason(), "SOURCE is DEST");
    let error = CopyError::DirectoryUnreadable { path: at(&["src"]), cause: "gone".to_string() };
    assert_eq!(error.action(), "read contents of");
}
