use lll::path::{ancestors_of, file_name_of, is_absolute, is_plain, join_path, parent};
use lll::text::{
    chars_contain, chars_equal, chars_less, chars_of, find_char, number_text, parse_number,
    rfind_char, same_text, slice_text,
};

#[test]
fn parent_of_a_path() {
    assert_eq!(parent("/a/b/c"), Some("/a/b".to_string()));
    assert_eq!(parent("/a"), Some("/".to_string()));
    assert_eq!(parent("/"), None);
    assert_eq!(parent(""), None);
    assert_eq!(parent("name"), Some("".to_string()));
    assert_eq!(parent("a/b"), Some("a".to_string()));
}

#[test]
fn ancestors_run_up_to_the_root() {
    assert_eq!(ancestors_of("/a/b/c"), vec!["/a/b/c", "/a/b", "/a", "/"]);
    assert_eq!(ancestors_of("/"), vec!["/"]);
    assert_eq!(ancestors_of("a/b"), vec!["a/b", "a", ""]);
    assert_eq!(ancestors_of(""), vec![""]);
}

#[test]
fn absolute_paths_in_normal_form() {
    assert!(is_absolute("/"));
    assert!(is_absolute("/a/b"));
    assert!(!is_absolute(""));
    assert!(!is_absolute("a/b"));
    assert!(!is_absolute("/a/"));
    assert!(!is_absolute("/a//b"));
    assert!(!is_absolute("//"));
}

#[test]
fn joining_and_file_names() {
    assert_eq!(join_path("/", "a"), "/a");
    assert_eq!(join_path("/a", "b"), "/a/b");
    assert_eq!(join_path("", "b"), "/b");
    assert_eq!(file_name_of("/a/b.txt"), "b.txt");
    assert_eq!(file_name_of("plain"), "plain");
    assert_eq!(file_name_of("/"), "");
}

#[test]
fn characters_and_slices() {
    assert_eq!(chars_of("aé中"), vec!['a', 'é', '中']);
    assert!(chars_of("").is_empty());
    assert_eq!(slice_text("aé中b", 1, 3), "é中");
    assert_eq!(slice_text("abc", 3, 3), "");
    assert!(same_text("abc", "abc"));
    assert!(!same_text("abc", "abd"));
    assert!(!same_text("abc", "ab"));
    assert!(chars_equal(&chars_of("x"), &chars_of("x")));
}

#[test]
fn lexicographic_order_of_texts() {
    let less = |a: &str, b: &str| chars_less(&chars_of(a), &chars_of(b));
    assert!(less("", "a"));
    assert!(!less("a", ""));
    assert!(!less("", ""));
    assert!(less("a", "b"));
    assert!(less("ab", "b"));
    assert!(less("a", "ab"));
    assert!(!less("ab", "a"));
    assert!(!less("abc", "abc"));
    assert!(less("Z", "a"));
    assert!(less("z", "é"));
}

#[test]
fn finding_characters_and_texts() {
    let text = chars_of("a.b.c");
    assert_eq!(rfind_char(&text, '.'), Some(3));
    assert_eq!(find_char(&text, '.'), Some(1));
    assert_eq!(rfind_char(&text, 'x'), None);
    assert_eq!(find_char(&chars_of(""), 'x'), None);
    assert!(chars_contain(&chars_of("hello"), &chars_of("ell")));
    assert!(chars_contain(&chars_of("hello"), &chars_of("")));
    assert!(chars_contain(&chars_of("hello"), &chars_of("hello")));
    assert!(chars_contain(&chars_of("hello"), &chars_of("lo")));
    assert!(!chars_contain(&chars_of("hello"), &chars_of("hellos")));
    assert!(!chars_contain(&chars_of("hello"), &chars_of("leh")));
    assert!(chars_contain(&chars_of(""), &chars_of("")));
}

#[test]
fn numbers_in_decimal() {
    assert_eq!(parse_number("0"), Some(0));
    assert_eq!(parse_number("42"), Some(42));
    assert_eq!(parse_number("+7"), Some(7));
    assert_eq!(parse_number("007"), Some(7));
    assert_eq!(parse_number(""), None);
    assert_eq!(parse_number("+"), None);
    assert_eq!(parse_number("-1"), None);
    assert_eq!(parse_number("1x"), None);
    assert_eq!(parse_number(" 1"), None);
    assert_eq!(parse_number(&usize::MAX.to_string()), Some(usize::MAX));
    assert_eq!(parse_number("99999999999999999999999999"), None);
    let mut too_big = usize::MAX.to_string();
    too_big.push('0');
    assert_eq!(parse_number(&too_big), None);
}

#[test]
fn paths_in_normal_form() {
    for good in ["", "/", "a", "/a", "a/b", "/a/b", ".", "..", "./a", "/..", "/a/..", "/.a", "/a./b.", "root"] {
        assert!(is_plain(good), "{}", good);
    }
    for bad in ["/a/", "a/", "//", "/a//b", "/.", "/a/.", "/a/./b", "a/.", "/./a", "///"] {
        assert!(!is_plain(bad), "{}", bad);
    }
    assert!(!is_absolute("/a/."));
    assert!(!is_absolute("/./a"));
    assert!(is_absolute("/a/.."));
    assert!(!is_absolute("."));
}

#[test]
fn the_parent_is_the_one_that_std_gives_in_normal_form() {
    for p in ["", "/", "a", "/a", "a/b", "/a/b", ".", "..", "./a", "/..", "/a/..", "/.a", "/a/b/c.d"] {
        assert!(is_plain(p));
        let std_parent =
            std::path::Path::new(p).parent().map(|q| q.to_str().unwrap().to_string());
        assert_eq!(parent(p), std_parent, "{}", p);
    }
}

#[test]
fn numbers_are_written_in_decimal() {
    assert_eq!(number_text(0), "0");
    assert_eq!(number_text(7), "7");
    assert_eq!(number_text(10), "10");
    assert_eq!(number_text(1203), "1203");
    assert_eq!(number_text(usize::MAX), usize::MAX.to_string());
    for n in [0usize, 9, 10, 99, 100, 4096, usize::MAX] {
        assert_eq!(parse_number(&number_text(n)), Some(n));
    }
}
