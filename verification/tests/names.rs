use iconnect::names::{
    ascii_filename, chunk_file_name, sanitize_filename, unique_name, unique_path,
};

#[test]
fn directories_are_dropped() {
    assert_eq!(sanitize_filename("C:\\Users\\me\\a.txt"), "a.txt");
    assert_eq!(sanitize_filename("dir/..\\ x "), "x");
    assert_eq!(sanitize_filename("dir/"), "unnamed");
    assert_eq!(sanitize_filename(""), "unnamed");
    assert_eq!(sanitize_filename(" . "), "unnamed");
    assert_eq!(sanitize_filename("..."), "...");
}

#[test]
fn forbidden_characters_are_replaced() {
    assert_eq!(sanitize_filename("a\u{0}b\u{7f}c\u{85}d\"e*"), "a_b_c_d_e_");
    assert_eq!(sanitize_filename("\u{1}"), "_");
    assert_eq!(sanitize_filename("a\tb"), "a_b");
}

#[test]
fn clean_names_are_kept() {
    for raw in ["a<b", "  x  ", "../y", "测试.txt", "", "a:b/c|d"] {
        let once = sanitize_filename(raw);
        assert_eq!(sanitize_filename(&once), once);
    }
}

#[test]
fn header_names_are_ascii() {
    assert_eq!(ascii_filename("a-B_9.txt"), "a-B_9.txt");
    assert_eq!(ascii_filename("测 试\".txt"), "____.txt");
    assert_eq!(ascii_filename(""), "");
}

#[test]
fn numbers_go_before_the_extension() {
    let taken = |n: &String| !n.contains('(');
    assert_eq!(unique_path("a.tar.gz", taken).unwrap(), "a.tar (1).gz");
    assert_eq!(unique_path("README", taken).unwrap(), "README (1)");
    assert_eq!(unique_path(".profile", taken).unwrap(), ".profile (1)");
    assert_eq!(unique_path("a.", taken).unwrap(), "a (1)");
    assert_eq!(unique_path(".a.b", taken).unwrap(), ".a (1).b");
    assert_eq!(unique_path("...", taken).unwrap(), ".. (1)");
}

#[test]
fn the_first_free_number_is_taken() {
    let existing = ["a", "a (1)", "a (2)", "a (4)"];
    let taken = |n: &String| existing.contains(&n.as_str());
    assert_eq!(unique_path("a", taken).unwrap(), "a (3)");
    assert_eq!(unique_path("a (1)", taken).unwrap(), "a (1) (1)");
}

#[test]
fn names_with_directories_lose_them_only_when_numbered() {
    assert_eq!(unique_path("d/a.txt", |_: &String| false).unwrap(), "d/a.txt");
    let taken = |n: &String| n == "d/a.txt";
    assert_eq!(unique_path("d/a.txt", taken).unwrap(), "a (1).txt");
    assert_eq!(unique_path("..", |n: &String| n == "..").unwrap(), ".. (1)");
}

#[test]
fn given_parts_are_numbered() {
    let stem = "s".to_string();
    let taken = |n: &String| n == "name";
    assert_eq!(unique_name("name", &stem, &None, taken).unwrap(), "s (1)");
    assert_eq!(unique_name("name", &stem, &Some(String::new()), taken).unwrap(), "s (1)");
    assert_eq!(unique_name("name", &stem, &Some("e".to_string()), taken).unwrap(), "s (1).e");
}

#[test]
fn chunk_files_are_named_by_number() {
    assert_eq!(chunk_file_name(0), "00000000.part");
    assert_eq!(chunk_file_name(42), "00000042.part");
    assert_eq!(chunk_file_name(1234567890), "1234567890.part");
}
