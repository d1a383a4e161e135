use obsidian_web_server::text;
use obsidian_web_server::text::{
    contains_char, split_at_each, split_names, strip_leading_slashes, with_forward_slashes,
};

#[test]
fn splitting_keeps_empty_pieces() {
    assert_eq!(split_at_each("", '/'), vec![""]);
    assert_eq!(split_at_each("a", '/'), vec!["a"]);
    assert_eq!(split_at_each("/", '/'), vec!["", ""]);
    assert_eq!(split_at_each("a//bc/", '/'), vec!["a", "", "bc", ""]);
    assert_eq!(split_at_each("ä→ö→", '→'), vec!["ä", "ö", ""]);
}

#[test]
fn joining_undoes_splitting() {
    for text in ["", "/", "a/b", "//a", "notes/über/x.md/"] {
        assert_eq!(split_at_each(text, '/').join("/"), text);
    }
}

#[test]
fn splitting_undoes_joining() {
    let parts = vec!["a".to_string(), "b c".to_string(), "".to_string(), "d".to_string()];
    assert_eq!(split_at_each(&parts.join("/"), '/'), parts);
}

#[test]
fn names_between_slashes() {
    assert_eq!(split_names("a//b/"), vec!["a", "b"]);
    assert_eq!(split_names("///"), Vec::<String>::new());
    assert_eq!(split_names(""), Vec::<String>::new());
    assert_eq!(split_names("notes/day/one.md"), vec!["notes", "day", "one.md"]);
}

#[test]
fn leading_slashes_are_left_out() {
    assert_eq!(strip_leading_slashes("///a/b/"), "a/b/");
    assert_eq!(strip_leading_slashes("a/b"), "a/b");
    assert_eq!(strip_leading_slashes("//"), "");
    assert_eq!(strip_leading_slashes(" /a"), " /a");
}

#[test]
fn backslashes_become_slashes() {
    assert_eq!(with_forward_slashes("a\\b/c\\"), "a/b/c/");
    assert_eq!(with_forward_slashes("plain"), "plain");
}

#[test]
fn characters_are_found() {
    assert!(contains_char("it's", '\''));
    assert!(!contains_char("its", '\''));
    assert!(!contains_char("", 'a'));
}

#[test]
fn texts_are_put_together() {
    assert_eq!(text::concat("not found: ", "a.md"), "not found: a.md");
    assert_eq!(text::concat("", ""), "");
}
