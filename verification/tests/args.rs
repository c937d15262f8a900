use std::io::Error;
use std::io::ErrorKind;
use versioned_backup::args::convert_sources;
use versioned_backup::args::validate_destination;
use versioned_backup::args::verify;
use versioned_backup::args::CliError;
use versioned_backup::args::SourceProbe;
use versioned_backup::args::Verbosity;
use versioned_backup::state::SourcePath;

fn found(given: &str, absolute: &str, file_name: Option<&str>, is_file: bool) -> SourceProbe {
    SourceProbe {
        given: given.as_bytes().to_vec(),
        resolved: Ok(SourcePath {
            path: absolute.as_bytes().to_vec(),
            file_name: file_name.map(|n| n.as_bytes().to_vec()),
        }),
        is_file,
    }
}

fn unresolved(given: &str) -> SourceProbe {
    SourceProbe {
        given: given.as_bytes().to_vec(),
        resolved: Err(Error::from(ErrorKind::InvalidInput)),
        is_file: false,
    }
}

fn paths(list: &Vec<SourcePath>) -> Vec<Vec<u8>> {
    list.iter().map(|s| s.path.clone()).collect()
}

#[test]
fn default_verbosity_is_info() {
    assert_eq!(Verbosity::default(), Verbosity::Info);
}

#[test]
fn sources_become_absolute() {
    let list = convert_sources(vec![
        found("a.txt", "/data/a.txt", Some("a.txt"), true),
        found("../b", "/b", Some("b"), true),
    ])
    .unwrap();
    assert_eq!(paths(&list), vec![b"/data/a.txt".to_vec(), b"/b".to_vec()]);
    assert_eq!(list[0].file_name, Some(b"a.txt".to_vec()));
}

#[test]
fn repeated_sources_collapse() {
    let list = convert_sources(vec![
        found("a.txt", "/data/a.txt", Some("a.txt"), true),
        found("b.txt", "/data/b.txt", Some("b.txt"), true),
        found("./a.txt", "/data/a.txt", Some("a.txt"), true),
        found("/data/b.txt", "/data/b.txt", Some("b.txt"), true),
        found("c.txt", "/data/c.txt", Some("c.txt"), true),
    ])
    .unwrap();
    assert_eq!(
        paths(&list),
        vec![b"/data/a.txt".to_vec(), b"/data/b.txt".to_vec(), b"/data/c.txt".to_vec()]
    );
}

#[test]
fn repeated_source_is_passed_over_unseen() {
    let list = convert_sources(vec![
        found("a.txt", "/data/a.txt", Some("a.txt"), true),
        found("./a.txt", "/data/a.txt", None, false),
    ])
    .unwrap();
    assert_eq!(paths(&list), vec![b"/data/a.txt".to_vec()]);
}

#[test]
fn no_sources_give_no_sources() {
    assert!(convert_sources(Vec::new()).unwrap().is_empty());
}

#[test]
fn source_without_absolute_form_is_refused() {
    let failed = convert_sources(vec![found("a", "/a", Some("a"), true), unresolved("")]).unwrap_err();
    assert!(matches!(
        failed,
        CliError::SourceNoAbsolute { filename, error }
            if filename.is_empty() && error.kind() == ErrorKind::InvalidInput
    ));
}

#[test]
fn source_that_is_no_file_is_refused() {
    let failed = convert_sources(vec![
        found("a", "/a", Some("a"), true),
        found("dir", "/data/dir", Some("dir"), false),
        unresolved(""),
    ])
    .unwrap_err();
    assert!(matches!(failed, CliError::SourceNotAFile(filename) if filename == b"dir".to_vec()));
}

#[test]
fn source_without_file_name_is_refused() {
    let failed = convert_sources(vec![found("..", "/data/..", None, true)]).unwrap_err();
    assert!(matches!(failed, CliError::SourceNoFileStem(filename) if filename == b"..".to_vec()));
}

#[test]
fn source_is_checked_for_being_a_file_first() {
    let failed = convert_sources(vec![found("..", "/data/..", None, false)]).unwrap_err();
    assert!(matches!(failed, CliError::SourceNotAFile(_)));
}

#[test]
fn destination_must_be_a_directory() {
    assert!(validate_destination(&b"/backup".to_vec(), true).is_ok());
    let failed = validate_destination(&b"/backup".to_vec(), false).unwrap_err();
    assert!(matches!(failed, CliError::DestinationFolder { filename } if filename == b"/backup".to_vec()));
}

#[test]
fn request_that_can_be_served() {
    let args = verify(
        b"/backup".to_vec(),
        true,
        Verbosity::Debug,
        vec![found("a.txt", "/data/a.txt", Some("a.txt"), true)],
    )
    .unwrap();
    assert_eq!(args.destination, b"/backup".to_vec());
    assert_eq!(args.log_level, Verbosity::Debug);
    assert_eq!(paths(&args.sources), vec![b"/data/a.txt".to_vec()]);
}

#[test]
fn request_is_held_against_the_sources_first() {
    let failed = verify(
        b"/backup".to_vec(),
        false,
        Verbosity::Info,
        vec![found("dir", "/data/dir", Some("dir"), false)],
    )
    .unwrap_err();
    assert!(matches!(failed, CliError::SourceNotAFile(_)));
    let failed = verify(
        b"/backup".to_vec(),
        false,
        Verbosity::Info,
        vec![found("a", "/data/a", Some("a"), true)],
    )
    .unwrap_err();
    assert!(matches!(failed, CliError::DestinationFolder { .. }));
}

#[test]
fn command_line_error_messages() {
    assert_eq!(
        CliError::SourceNotAFile(b"dir".to_vec()).to_string(),
        "Source path \"\"dir\"\" is not a file."
    );
    assert_eq!(
        CliError::SourceNoFileStem(b"..".to_vec()).to_string(),
        "Unable to get file name from \"..\"."
    );
    assert_eq!(
        CliError::DestinationFolder { filename: b"/back\"up".to_vec() }.to_string(),
        "Destination path \"\"/back\\\"up\"\" is not a folder."
    );
    let failed = CliError::SourceNoAbsolute {
        filename: b"".to_vec(),
        error: Error::from(ErrorKind::InvalidInput),
    };
    let text = failed.to_string();
    assert!(text.starts_with("Unable to resolve absolute path for \"\"\"\": "), "{}", text);
    assert!(text.len() > "Unable to resolve absolute path for \"\"\"\": ".len());
}
