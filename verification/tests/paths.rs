use zr::path::{extension_is, file_name_of, join, names_completion, normalize, parent_of, trim};

#[test]
fn join_puts_one_slash_between() {
    assert_eq!(join("/cache", "github.com/a/b"), "/cache/github.com/a/b");
    assert_eq!(join("/cache/", "a"), "/cache/a");
    assert_eq!(join("", "a/b"), "a/b");
    assert_eq!(join("a", ""), "a/");
    assert_eq!(join("a", "/etc/passwd"), "a//etc/passwd");
}

#[test]
fn parent_is_what_stands_before_the_last_slash() {
    assert_eq!(parent_of("/cache/a/b/init.zsh"), Some("/cache/a/b".to_string()));
    assert_eq!(parent_of("a/b"), Some("a".to_string()));
    assert_eq!(parent_of("/f"), Some("".to_string()));
    assert_eq!(parent_of("plain"), None);
    assert_eq!(parent_of(""), None);
}

#[test]
fn file_name_is_the_last_segment() {
    assert_eq!(file_name_of("/cache/a/b/init.zsh"), "init.zsh");
    assert_eq!(file_name_of("plain"), "plain");
    assert_eq!(file_name_of("a/b/"), "");
}

#[test]
fn extension_needs_a_stem() {
    assert!(extension_is("a.zsh", "zsh"));
    assert!(extension_is("a.b.zsh", "zsh"));
    assert!(extension_is("..zsh", "zsh"));
    assert!(!extension_is(".zsh", "zsh"));
    assert!(!extension_is("zsh", "zsh"));
    assert!(!extension_is("a.zsh", "sh"));
    assert!(extension_is("a.sh", "sh"));
    assert!(!extension_is("azsh", "zsh"));
    assert!(!extension_is("a.zsh.bak", "zsh"));
}

#[test]
fn completion_names_begin_with_underscore() {
    assert!(names_completion("_git"));
    assert!(names_completion("_"));
    assert!(!names_completion("git_"));
    assert!(!names_completion(""));
}

#[test]
fn normalize_turns_backslashes() {
    assert_eq!(normalize("C:\\Users\\me\\cache/a/b"), "C:/Users/me/cache/a/b");
    assert_eq!(normalize("/already/fine"), "/already/fine");
    assert_eq!(normalize(""), "");
}

#[test]
fn trim_takes_the_slashes_at_the_end() {
    assert_eq!(trim("a/b/"), "a/b");
    assert_eq!(trim("a/b///"), "a/b");
    assert_eq!(trim("a/b"), "a/b");
    assert_eq!(trim("/"), "");
    assert_eq!(trim(""), "");
    assert_eq!(trim("/a"), "/a");
}
