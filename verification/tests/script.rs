use zr::identifier::Identifier;
use zr::plugin::{Entry, EntryKind, Platform};
use zr::plugins::{AddStep, FetchOutcome, Plugins};
use zr::plugins_from;
use zr::script::{last_word_of, whitespace};

fn names(list: &[&str]) -> Vec<String> {
    list.iter().map(|s| s.to_string()).collect()
}

#[test]
fn comment_lines_carry_the_identifiers() {
    let script = "\
# geometry-zsh/geometry.git/geometry.zsh
source /c/github.com/geometry-zsh/geometry.git/geometry.zsh
# zsh-users/zsh-autosuggestions
source /c/github.com/zsh-users/zsh-autosuggestions/zsh-autosuggestions.plugin.zsh
fpath+=/c/github.com/zsh-users/zsh-autosuggestions/
PATH=/c/github.com/zsh-users/zsh-autosuggestions:$PATH
autoload -Uz compinit; compinit -iCd $HOME/.zcompdump
";
    assert_eq!(
        plugins_from(script),
        names(&["geometry-zsh/geometry.git/geometry.zsh", "zsh-users/zsh-autosuggestions"])
    );
}

#[test]
fn the_last_word_of_a_comment_counts() {
    assert_eq!(plugins_from("# one two  three \t\n"), names(&["three"]));
    assert_eq!(plugins_from("# a/b\r\n# c/d\r\n"), names(&["a/b", "c/d"]));
    assert_eq!(plugins_from("# a/b"), names(&["a/b"]));
    assert_eq!(plugins_from("# \n"), names(&["#"]));
    assert_eq!(plugins_from("#  \n#\n#a/b\n # a/b\n"), names(&["#"]));
    assert_eq!(plugins_from(""), Vec::<String>::new());
    assert_eq!(plugins_from("\n\n"), Vec::<String>::new());
    assert_eq!(plugins_from("source x\n\n# a/b\n\n"), names(&["a/b"]));
}

#[test]
fn last_word_of_a_range() {
    let chars: Vec<char> = "ab cd  ef ".chars().collect();
    assert_eq!(last_word_of(&chars, 0, chars.len()), "ef");
    assert_eq!(last_word_of(&chars, 0, 7), "cd");
    assert_eq!(last_word_of(&chars, 0, 2), "ab");
    assert_eq!(last_word_of(&chars, 1, 2), "b");
    assert_eq!(last_word_of(&chars, 5, 7), "");
    assert_eq!(last_word_of(&chars, 3, 3), "");
}

#[test]
fn whitespace_is_what_the_standard_library_calls_whitespace() {
    let mut code: u32 = 0;
    while code <= 0x10ffff {
        if let Some(c) = char::from_u32(code) {
            assert_eq!(whitespace(c), c.is_whitespace(), "U+{:04X}", code);
        }
        code += 1;
    }
}

#[test]
fn rendered_script_reads_back() {
    let given = names(&[
        "geometry-zsh/geometry.git/geometry.zsh",
        "zsh-users/zsh-autosuggestions",
        "https://gitlab.com/a/plugin.git/dir/file.zsh",
    ]);
    let mut plugins = Plugins::new("/c".to_string());
    for name in &given {
        match plugins.add(name.clone()).unwrap() {
            AddStep::Merged => panic!("nothing to merge with"),
            AddStep::Fetch(request) => {
                let entries = vec![
                    Entry { name: "# fake".to_string(), kind: EntryKind::File, mode: 0o644 },
                    Entry { name: "tool.zsh".to_string(), kind: EntryKind::File, mode: 0o755 },
                ];
                plugins.complete_add(request.identifier, FetchOutcome::Ready(entries)).unwrap();
            }
        }
    }
    for platform in [Platform::Posix, Platform::Windows] {
        let script = plugins.render(platform, &vec![]);
        let read = plugins_from(&script);
        assert_eq!(read, given);
        for (name, plugin) in read.iter().zip(plugins.plugins().iter()) {
            let again = Identifier::new(name.clone()).unwrap();
            assert_eq!(again.directory, plugin.identifier().directory);
            assert_eq!(again.file, plugin.identifier().file);
        }
    }
}

#[test]
fn identifier_with_a_space_does_not_read_back() {
    let mut plugins = Plugins::new("/c".to_string());
    match plugins.add("a/b c".to_string()).unwrap() {
        AddStep::Fetch(request) => {
            plugins.complete_add(request.identifier, FetchOutcome::Ready(vec![])).unwrap()
        }
        AddStep::Merged => panic!("nothing to merge with"),
    }
    let script = plugins.render(Platform::Posix, &vec![]);
    assert_eq!(script, "# a/b c\nautoload -Uz compinit; compinit -iCd $HOME/.zcompdump\n");
    assert_eq!(plugins_from(&script), names(&["c"]));
}

#[test]
fn reloading_what_was_read_back_gives_the_same_plugins() {
    let entries = || {
        vec![
            Entry { name: "tool.plugin.zsh".to_string(), kind: EntryKind::File, mode: 0o644 },
            Entry { name: "one.zsh".to_string(), kind: EntryKind::File, mode: 0o644 },
            Entry { name: "two.zsh".to_string(), kind: EntryKind::File, mode: 0o644 },
        ]
    };
    let load = |names: &Vec<String>| {
        let mut plugins = Plugins::new("/c".to_string());
        for name in names {
            if let AddStep::Fetch(request) = plugins.add(name.clone()).unwrap() {
                plugins.complete_add(request.identifier, FetchOutcome::Ready(entries())).unwrap();
            }
        }
        plugins
    };
    let given = names(&["a/tool", "b/other", "c/d.git/lib/x.zsh"]);
    let first = load(&given);
    let script = first.render(Platform::Posix, &vec![]);
    let again = load(&plugins_from(&script));
    assert_eq!(again.plugins().len(), 3);
    for (one, two) in first.plugins().iter().zip(again.plugins().iter()) {
        assert_eq!(one.identifier().name, two.identifier().name);
        assert_eq!(one.identifier().directory, two.identifier().directory);
        assert_eq!(one.identifier().file, two.identifier().file);
        assert_eq!(one.files(), two.files());
    }
    assert_eq!(first.plugins()[0].files(), &names(&["/c/github.com/a/tool/tool.plugin.zsh"]));
    assert_eq!(again.render(Platform::Posix, &vec![]), script);
}

#[test]
fn only_the_header_of_a_fragment_is_a_comment() {
    let mut plugins = Plugins::new("/c".to_string());
    match plugins.add("a/b c.git/# x.zsh".to_string()).unwrap() {
        AddStep::Fetch(request) => {
            plugins.complete_add(request.identifier, FetchOutcome::Ready(vec![])).unwrap()
        }
        AddStep::Merged => panic!("nothing to merge with"),
    }
    let fragment = plugins.plugins()[0].render(Platform::Windows, &vec![]);
    let comments: Vec<&str> = fragment.lines().filter(|l| l.starts_with("# ")).collect();
    assert_eq!(comments, vec!["# a/b c.git/# x.zsh"]);
    assert_eq!(fragment.lines().next(), Some("# a/b c.git/# x.zsh"));
}
