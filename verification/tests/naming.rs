use std::path::Path;
use versioned_backup::naming::begins_with;
use versioned_backup::naming::file_extension;
use versioned_backup::naming::file_stem;
use versioned_backup::naming::parse_number;
use versioned_backup::naming::read_version_number;
use versioned_backup::naming::same_bytes;
use versioned_backup::naming::split_point;
use versioned_backup::naming::write_version_name;

fn std_stem(name: &str) -> Option<Vec<u8>> {
    Path::new(name).file_stem().map(|s| s.as_encoded_bytes().to_vec())
}

fn std_extension(name: &str) -> Option<Vec<u8>> {
    Path::new(name).extension().map(|s| s.as_encoded_bytes().to_vec())
}

#[test]
fn parses_lower_case_digits() {
    assert_eq!(parse_number(b"ff"), Some(255));
    assert_eq!(parse_number(b"0"), Some(0));
    assert_eq!(parse_number(b"1a"), Some(26));
}

#[test]
fn parses_upper_case_and_mixed_digits() {
    assert_eq!(parse_number(b"FF"), Some(255));
    assert_eq!(parse_number(b"aB"), Some(171));
}

#[test]
fn parses_leading_plus_and_zeros() {
    assert_eq!(parse_number(b"+1f"), Some(31));
    assert_eq!(parse_number(b"000000000000000000001"), Some(1));
}

#[test]
fn rejects_what_is_no_number() {
    assert_eq!(parse_number(b""), None);
    assert_eq!(parse_number(b"+"), None);
    assert_eq!(parse_number(b"-1"), None);
    assert_eq!(parse_number(b"++1"), None);
    assert_eq!(parse_number(b"1g"), None);
    assert_eq!(parse_number(b" 1"), None);
    assert_eq!(parse_number(b"1_0"), None);
    assert_eq!(parse_number(b"0x1"), None);
}

#[test]
fn parses_up_to_the_largest_number_and_no_further() {
    assert_eq!(parse_number(b"ffffffffffffffff"), Some(u64::MAX));
    assert_eq!(parse_number(b"10000000000000000"), None);
    assert_eq!(parse_number(b"fffffffffffffffff"), None);
}

#[test]
fn parses_as_the_standard_library_does() {
    let texts = [
        "", "+", "-", "0", "7", "a", "F", "+a", "-a", "10", "dead", "BEEF", "ffffffffffffffff",
        "10000000000000000", "0000000000000000000ff", "12 ", "x", "+-1", "1+",
    ];
    for text in texts {
        assert_eq!(parse_number(text.as_bytes()), u64::from_str_radix(text, 16).ok(), "{}", text);
    }
}

#[test]
fn writes_name_with_extension() {
    let name = write_version_name(b"report", &Some(b"csv".to_vec()), 26);
    assert_eq!(name, b"report_1a.csv".to_vec());
}

#[test]
fn writes_name_without_extension() {
    assert_eq!(write_version_name(b"notes", &None, 0), b"notes_0".to_vec());
    assert_eq!(write_version_name(b".profile", &None, 255), b".profile_ff".to_vec());
}

#[test]
fn writes_name_with_dots_in_the_prefix() {
    let name = write_version_name(b"archive.tar", &Some(b"gz".to_vec()), 16);
    assert_eq!(name, b"archive.tar_10.gz".to_vec());
}

#[test]
fn writes_numbers_as_lower_hex_does() {
    for number in [0u64, 1, 9, 10, 15, 16, 255, 256, 4095, 0xdead_beef, u64::MAX] {
        let expected = format!("a_{:x}.b", number).into_bytes();
        assert_eq!(write_version_name(b"a", &Some(b"b".to_vec()), number), expected);
    }
}

#[test]
fn splits_names_as_the_standard_library_does() {
    let names = [
        "report.csv", "report", ".bashrc", ".bashrc.bak", "archive.tar.gz", "foo.", "a.b.", "..",
        "...", ".", "a..b", "_0", "x_1f.txt", "", ".a.",
    ];
    for name in names {
        if name.is_empty() || name == "." || name == ".." {
            continue;
        }
        assert_eq!(Some(file_stem(name.as_bytes())), std_stem(name), "{}", name);
        assert_eq!(file_extension(name.as_bytes()), std_extension(name), "{}", name);
    }
}

#[test]
fn splits_at_the_last_dot() {
    assert_eq!(file_stem(b"archive.tar.gz"), b"archive.tar".to_vec());
    assert_eq!(file_extension(b"archive.tar.gz"), Some(b"gz".to_vec()));
    assert_eq!(split_point(b"archive.tar.gz"), Some(11));
}

#[test]
fn leaves_names_without_extension_whole() {
    assert_eq!(file_stem(b"Makefile"), b"Makefile".to_vec());
    assert_eq!(file_extension(b"Makefile"), None);
    assert_eq!(file_stem(b".bashrc"), b".bashrc".to_vec());
    assert_eq!(file_extension(b".bashrc"), None);
    assert_eq!(file_stem(b".."), b"..".to_vec());
    assert_eq!(file_extension(b".."), None);
    assert_eq!(split_point(b""), None);
}

#[test]
fn keeps_an_empty_extension() {
    assert_eq!(file_stem(b"foo."), b"foo".to_vec());
    assert_eq!(file_extension(b"foo."), Some(Vec::new()));
}

#[test]
fn reads_the_number_of_a_copy() {
    let extension = Some(b"csv".to_vec());
    assert_eq!(read_version_number(b"report", &extension, b"report_1a.csv"), Some(26));
    assert_eq!(read_version_number(b"report", &extension, b"report_0.csv"), Some(0));
    assert_eq!(read_version_number(b"report", &extension, b"report_+A.csv"), Some(10));
}

#[test]
fn passes_over_names_of_other_files() {
    let extension = Some(b"csv".to_vec());
    assert_eq!(read_version_number(b"report", &extension, b"report_1a.txt"), None);
    assert_eq!(read_version_number(b"report", &extension, b"report_1a"), None);
    assert_eq!(read_version_number(b"report", &extension, b"report1a.csv"), None);
    assert_eq!(read_version_number(b"report", &extension, b"report_.csv"), None);
    assert_eq!(read_version_number(b"report", &extension, b"report_zz.csv"), None);
    assert_eq!(read_version_number(b"report", &extension, b"other_1.csv"), None);
    assert_eq!(read_version_number(b"report", &extension, b"report_1.csv.bak"), None);
    assert_eq!(read_version_number(b"report", &None, b"report_1.csv"), None);
    assert_eq!(read_version_number(b"report", &extension, b"report_10000000000000000.csv"), None);
}

#[test]
fn reads_back_every_number_it_writes() {
    let sources: [(&[u8], Option<Vec<u8>>); 5] = [
        (b"a", Some(b"txt".to_vec())),
        (b"archive.tar", Some(b"gz".to_vec())),
        (b"notes", None),
        (b".profile", None),
        (b"trailing", Some(Vec::new())),
    ];
    for (prefix, extension) in sources {
        for number in [0u64, 1, 9, 10, 15, 16, 17, 255, 256, 0xabcdef, u64::MAX - 1, u64::MAX] {
            let name = write_version_name(prefix, &extension, number);
            assert_eq!(read_version_number(prefix, &extension, &name), Some(number));
        }
    }
}

#[test]
fn compares_byte_strings() {
    assert!(same_bytes(b"abc", b"abc"));
    assert!(same_bytes(b"", b""));
    assert!(!same_bytes(b"abc", b"abd"));
    assert!(!same_bytes(b"abc", b"ab"));
    assert!(begins_with(b"report_1", b"report_"));
    assert!(begins_with(b"report_", b"report_"));
    assert!(begins_with(b"x", b""));
    assert!(!begins_with(b"report", b"report_"));
    assert!(!begins_with(b"repart_1", b"report_"));
}
