use zr::text::{
    chars_of, ends_with, find, find_char_from, holds, insert, join, matches_at, push_chars,
    remove_all, replace_char, rfind_char, same, substring, truncate,
};

fn chars(text: &str) -> Vec<char> {
    text.chars().collect()
}

#[test]
fn chars_of_keeps_every_character() {
    assert_eq!(chars_of("a\u{2193}b"), vec!['a', '\u{2193}', 'b']);
    assert_eq!(chars_of(""), Vec::<char>::new());
}

#[test]
fn substring_and_push_chars() {
    let v = chars("hello world");
    assert_eq!(substring(&v, 6, 11), "world");
    assert_eq!(substring(&v, 3, 3), "");
    let mut out = "say ".to_string();
    push_chars(&mut out, &v, 0, 5);
    assert_eq!(out, "say hello");
}

#[test]
fn find_gives_the_first_occurrence() {
    let s = chars("a.git/b.git/c");
    assert_eq!(find(&s, &chars(".git/")), Some(1));
    assert_eq!(find(&s, &chars(".gut/")), None);
    assert_eq!(find(&s, &chars("")), Some(0));
    assert_eq!(find(&chars("ab"), &chars("abc")), None);
    assert_eq!(find(&chars("xxab"), &chars("ab")), Some(2));
    assert!(matches_at(&s, &chars(".git/"), 7));
    assert!(!matches_at(&s, &chars(".git/"), 2));
    assert!(!matches_at(&s, &chars(".git/"), 12));
}

#[test]
fn single_characters_are_found_from_both_ends() {
    let s = chars("a/b/c");
    assert_eq!(find_char_from(&s, '/', 0), Some(1));
    assert_eq!(find_char_from(&s, '/', 2), Some(3));
    assert_eq!(find_char_from(&s, '/', 4), None);
    assert_eq!(find_char_from(&s, '/', 9), None);
    assert_eq!(rfind_char(&s, '/'), Some(3));
    assert_eq!(rfind_char(&s, 'x'), None);
}

#[test]
fn suffixes() {
    let s = chars("init.zsh");
    assert!(ends_with(&s, &chars(".zsh")));
    assert!(ends_with(&s, &chars("")));
    assert!(!ends_with(&s, &chars(".sh")));
    assert!(!ends_with(&chars("sh"), &chars(".zsh")));
}

#[test]
fn replace_and_remove() {
    assert_eq!(replace_char(&chars("a\\b\\c"), '\\', '/'), "a/b/c");
    assert_eq!(remove_all(&chars("refs/heads/main"), &chars("refs/heads/")), "main");
    assert_eq!(remove_all(&chars("refs/heads/refs/heads/x"), &chars("refs/heads/")), "x");
    assert_eq!(remove_all(&chars("aaa"), &chars("aa")), "a");
    assert_eq!(remove_all(&chars("abc"), &chars("")), "abc");
    assert_eq!(remove_all(&chars("abc"), &chars("abcd")), "abc");
    assert_eq!(truncate(&chars("0123456789"), 6), "012345");
    assert_eq!(truncate(&chars("0123"), 6), "0123");
}

#[test]
fn join_puts_the_separator_between() {
    assert_eq!(join(&vec!["a".to_string(), "b".to_string(), "c".to_string()], '/'), "a/b/c");
    assert_eq!(join(&vec!["a".to_string()], '/'), "a");
    assert_eq!(join(&vec![], '/'), "");
    assert_eq!(join(&vec!["".to_string(), "".to_string()], '/'), "/");
}

#[test]
fn lists_hold_each_text_once() {
    let mut list = vec!["a".to_string()];
    insert(&mut list, "b".to_string());
    insert(&mut list, "a".to_string());
    insert(&mut list, "b".to_string());
    assert_eq!(list, vec!["a".to_string(), "b".to_string()]);
    assert!(holds(&list, &"b".to_string()));
    assert!(!holds(&list, &"c".to_string()));
    assert!(same("list", "list"));
    assert!(!same("list", "lists"));
}
