use rget::partial::add_part_extension;
use rget::util::{
    add_path_extension, file_component, is_number, parse_u64, str_eq, trim_prefix_matches,
    trim_suffix_matches, u64_to_string,
};

#[test]
fn part_name_appends_to_extension() {
    assert_eq!(add_part_extension("archive.tar.gz", 2), "archive.tar.gz.part2");
    assert_eq!(add_part_extension("dir/data.bin", 0), "dir/data.bin.part0");
}

#[test]
fn part_name_without_extension_gets_empty_one() {
    assert_eq!(add_part_extension("file", 3), "file..part3");
}

#[test]
fn part_name_with_large_index() {
    assert_eq!(add_part_extension("a.b", 1234), "a.b.part1234");
}

#[test]
fn descriptor_name_appends_toml() {
    assert_eq!(add_path_extension("dir/file.bin", "toml"), "dir/file.bin.toml");
    assert_eq!(add_path_extension("file", "toml"), "file..toml");
}

#[test]
fn dot_in_directory_is_not_an_extension() {
    assert_eq!(add_path_extension("some.dir/file", "toml"), "some.dir/file..toml");
}

#[test]
fn decimal_text_of_u64() {
    assert_eq!(u64_to_string(0), "0");
    assert_eq!(u64_to_string(7), "7");
    assert_eq!(u64_to_string(10), "10");
    assert_eq!(u64_to_string(1009), "1009");
    assert_eq!(u64_to_string(u64::MAX), "18446744073709551615");
}

#[test]
fn file_component_is_after_last_slash() {
    assert_eq!(file_component("https://host/a/b.tar.gz"), "b.tar.gz");
    assert_eq!(file_component("plain"), "plain");
    assert_eq!(file_component("dir/"), "");
}

#[test]
fn prefix_trim_removes_repetitions() {
    assert_eq!(trim_prefix_matches("file:///tmp/x", "file://"), "/tmp/x");
    assert_eq!(trim_prefix_matches("file://file://x", "file://"), "x");
    assert_eq!(trim_prefix_matches("nothing", "file://"), "nothing");
}

#[test]
fn suffix_trim_removes_repetitions() {
    assert_eq!(trim_suffix_matches("a.toml", ".toml"), "a");
    assert_eq!(trim_suffix_matches("a.toml.toml", ".toml"), "a");
    assert_eq!(trim_suffix_matches("a.tomly", ".toml"), "a.tomly");
}

#[test]
fn string_equality_by_characters() {
    assert!(str_eq("abc", "abc"));
    assert!(!str_eq("abc", "abd"));
    assert!(!str_eq("abc", "ab"));
    assert!(str_eq("", ""));
}

#[test]
fn parse_u64_reads_decimal_text() {
    assert_eq!(parse_u64("0"), Some(0));
    assert_eq!(parse_u64("007"), Some(7));
    assert_eq!(parse_u64("+7"), Some(7));
    assert_eq!(parse_u64("18446744073709551615"), Some(u64::MAX));
    assert_eq!(parse_u64("18446744073709551616"), None);
    assert_eq!(parse_u64(""), None);
    assert_eq!(parse_u64("+"), None);
    assert_eq!(parse_u64("12x"), None);
    assert_eq!(parse_u64("-3"), None);
}

#[test]
fn is_number_accepts_positive_counts() {
    assert!(is_number(String::from("4")).is_ok());
    assert!(is_number(String::from("+1")).is_ok());
}

#[test]
fn is_number_rejects_zero_with_its_message() {
    assert_eq!(
        is_number(String::from("0")),
        Err(String::from("the number of parallel downloads must be greater than 0"))
    );
}

#[test]
fn is_number_rejects_non_numbers_with_its_message() {
    assert_eq!(
        is_number(String::from("many")),
        Err(String::from("the number of parallel downloads must be an integer"))
    );
    assert!(is_number(String::from("18446744073709551616")).is_err());
}
