use zr::error::Error;
use zr::identifier::Identifier;
use zr::plugin::{Entry, EntryKind, Listing, Platform};
use zr::plugins::{blame, AddStep, Ensure, FetchOutcome, Plugins};

const CACHE: &str = "/home/micro/.cache/zr";
const TRAILER: &str = "autoload -Uz compinit; compinit -iCd $HOME/.zcompdump\n";

fn file(name: &str, mode: u32) -> Entry {
    Entry { name: name.to_string(), kind: EntryKind::File, mode }
}

fn directory(name: &str) -> Entry {
    Entry { name: name.to_string(), kind: EntryKind::Directory, mode: 0o755 }
}

/// Adds `name`, answering a fetch with `entries`.
fn add(plugins: &mut Plugins, name: &str, entries: Vec<Entry>) -> Result<bool, Error> {
    match plugins.add(name.to_string())? {
        AddStep::Merged => Ok(false),
        AddStep::Fetch(request) => {
            plugins.complete_add(request.identifier, FetchOutcome::Ready(entries))?;
            Ok(true)
        }
    }
}

fn files_of(plugins: &Plugins, index: usize) -> Vec<String> {
    plugins.plugins()[index].files().clone()
}

#[test]
fn test_load() {
    let input = "geometry-zsh/geometry.git/geometry.zsh zsh-users/zsh-autosuggestions";
    let mut plugins = Plugins::new(CACHE.to_string());
    for name in input.split(' ') {
        let entries = if name == "zsh-users/zsh-autosuggestions" {
            vec![
                file("zsh-autosuggestions.plugin.zsh", 0o644),
                file("zsh-autosuggestions.zsh", 0o644),
                file("install_test_zsh.sh", 0o755),
                directory("src"),
            ]
        } else {
            vec![file("geometry.zsh", 0o644)]
        };
        assert_eq!(add(&mut plugins, name, entries).unwrap(), true);
    }
    let listings = vec![
        Listing {
            directory: "/home/micro/.cache/zr/github.com/geometry-zsh/geometry.git".to_string(),
            entries: vec![file("geometry.zsh", 0o644)],
        },
        Listing {
            directory: "/home/micro/.cache/zr/github.com/zsh-users/zsh-autosuggestions".to_string(),
            entries: vec![
                file("zsh-autosuggestions.plugin.zsh", 0o644),
                file("zsh-autosuggestions.zsh", 0o644),
                file("install_test_zsh.sh", 0o755),
                directory("src"),
            ],
        },
    ];
    let expected_output = "\
# geometry-zsh/geometry.git/geometry.zsh
source /home/micro/.cache/zr/github.com/geometry-zsh/geometry.git/geometry.zsh
# zsh-users/zsh-autosuggestions
source /home/micro/.cache/zr/github.com/zsh-users/zsh-autosuggestions/zsh-autosuggestions.plugin.zsh
fpath+=/home/micro/.cache/zr/github.com/zsh-users/zsh-autosuggestions/
PATH=/home/micro/.cache/zr/github.com/zsh-users/zsh-autosuggestions:$PATH
autoload -Uz compinit; compinit -iCd $HOME/.zcompdump
";
    assert_eq!(plugins.render(Platform::Posix, &listings), expected_output);
}

#[test]
fn rejected_name_leaves_the_registry_unchanged() {
    let mut plugins = Plugins::new(CACHE.to_string());
    add(&mut plugins, "a/b", vec![file("init.zsh", 0o644)]).unwrap();
    let before = plugins.render(Platform::Windows, &vec![]);
    match plugins.add("not-a-plugin".to_string()) {
        Err(Error::InvalidPluginName { plugin_name }) => assert_eq!(plugin_name, "not-a-plugin"),
        other => panic!("unexpected: {:?}", other),
    }
    assert_eq!(plugins.plugins().len(), 1);
    assert_eq!(plugins.render(Platform::Windows, &vec![]), before);
}

#[test]
fn adding_twice_is_adding_once() {
    let entries = || vec![file("a.zsh", 0o644), file("b.zsh", 0o644)];
    let mut once = Plugins::new(CACHE.to_string());
    assert!(add(&mut once, "a/b", entries()).unwrap());
    let mut twice = Plugins::new(CACHE.to_string());
    assert!(add(&mut twice, "a/b", entries()).unwrap());
    assert!(!add(&mut twice, "a/b", vec![file("other.zsh", 0o644)]).unwrap());
    assert_eq!(twice.plugins().len(), 1);
    assert_eq!(files_of(&twice, 0), files_of(&once, 0));
    assert_eq!(
        twice.render(Platform::Windows, &vec![]),
        once.render(Platform::Windows, &vec![])
    );

    let mut explicit = Plugins::new(CACHE.to_string());
    assert!(add(&mut explicit, "a/b.git/x.zsh", vec![]).unwrap());
    assert!(!add(&mut explicit, "a/b.git/x.zsh", vec![]).unwrap());
    assert_eq!(files_of(&explicit, 0), vec![format!("{}/github.com/a/b.git/x.zsh", CACHE)]);
}

#[test]
fn second_identifier_for_a_directory_merges_its_file() {
    let mut plugins = Plugins::new(CACHE.to_string());
    assert!(add(&mut plugins, "author/name.git", vec![file("init.zsh", 0o644), file("x.zsh", 0o644)])
        .unwrap());
    assert!(!add(&mut plugins, "author/name.git/sub/file.zsh", vec![]).unwrap());
    assert_eq!(plugins.plugins().len(), 1);
    assert_eq!(plugins.plugins()[0].identifier().name, "author/name.git");
    assert_eq!(
        files_of(&plugins, 0),
        vec![
            format!("{}/github.com/author/name.git/init.zsh", CACHE),
            format!("{}/github.com/author/name.git/sub/file.zsh", CACHE),
        ]
    );
}

#[test]
fn script_path_behind_the_name_merges_into_the_plugin() {
    let mut plugins = Plugins::new(CACHE.to_string());
    assert!(add(&mut plugins, "author/name", vec![file("a.zsh", 0o644), file("b.zsh", 0o644)])
        .unwrap());
    assert!(!add(&mut plugins, "author/name/sub/file.zsh", vec![]).unwrap());
    assert_eq!(plugins.plugins().len(), 1);
    assert_eq!(
        files_of(&plugins, 0),
        vec![
            format!("{}/github.com/author/name/a.zsh", CACHE),
            format!("{}/github.com/author/name/b.zsh", CACHE),
        ]
    );
}

#[test]
fn fetch_request_names_source_and_target() {
    let mut plugins = Plugins::new(CACHE.to_string());
    match plugins.add("zsh-users/zsh-autosuggestions".to_string()).unwrap() {
        AddStep::Fetch(request) => {
            assert_eq!(request.identifier.name, "zsh-users/zsh-autosuggestions");
            assert_eq!(
                request.target,
                "/home/micro/.cache/zr/github.com/zsh-users/zsh-autosuggestions"
            );
            match request.ensure(false) {
                Ensure::Clone { source, target } => {
                    assert_eq!(source, "https://github.com/zsh-users/zsh-autosuggestions");
                    assert_eq!(target, request.target);
                }
                other => panic!("unexpected: {:?}", other),
            }
            assert!(matches!(request.ensure(true), Ensure::Nothing));
        }
        other => panic!("unexpected: {:?}", other),
    }
    assert_eq!(plugins.plugins().len(), 0);
}

#[test]
fn failed_fetch_is_the_error_and_changes_nothing() {
    let mut plugins = Plugins::new(CACHE.to_string());
    add(&mut plugins, "a/b", vec![file("init.zsh", 0o644)]).unwrap();
    let identifier = Identifier::new("c/d".to_string()).unwrap();
    match plugins.complete_add(identifier, FetchOutcome::Failed("no route to host".to_string())) {
        Err(Error::Fetch { message }) => assert_eq!(message, "c/d: no route to host"),
        other => panic!("unexpected: {:?}", other),
    }
    assert_eq!(plugins.plugins().len(), 1);
    assert_eq!(plugins.list(), "a/b\n");
}

#[test]
fn unreadable_directory_is_an_io_error_and_changes_nothing() {
    let mut plugins = Plugins::new(CACHE.to_string());
    let identifier = Identifier::new("c/d".to_string()).unwrap();
    match plugins.complete_add(identifier, FetchOutcome::Unreadable("permission denied".to_string())) {
        Err(Error::Io { message }) => assert_eq!(message, "c/d: permission denied"),
        other => panic!("unexpected: {:?}", other),
    }
    assert_eq!(plugins.plugins().len(), 0);
}

#[test]
fn what_is_held_is_not_fetched_again() {
    let mut plugins = Plugins::new(CACHE.to_string());
    assert!(matches!(plugins.add("a/b".to_string()).unwrap(), AddStep::Fetch(_)));
    assert!(matches!(plugins.add("a/b".to_string()).unwrap(), AddStep::Fetch(_)));
    add(&mut plugins, "a/b", vec![]).unwrap();
    assert!(matches!(plugins.add("a/b".to_string()).unwrap(), AddStep::Merged));
    assert!(matches!(plugins.add("a/b/c.zsh".to_string()).unwrap(), AddStep::Merged));
    assert!(matches!(plugins.add("a/c".to_string()).unwrap(), AddStep::Fetch(_)));
}

#[test]
fn completing_twice_merges() {
    let mut plugins = Plugins::new(CACHE.to_string());
    let first = Identifier::new("a/b.git/x.zsh".to_string()).unwrap();
    let second = Identifier::new("a/b.git/y.zsh".to_string()).unwrap();
    plugins.complete_add(first, FetchOutcome::Ready(vec![])).unwrap();
    plugins.complete_add(second, FetchOutcome::Ready(vec![])).unwrap();
    assert_eq!(plugins.plugins().len(), 1);
    assert_eq!(
        files_of(&plugins, 0),
        vec![
            format!("{}/github.com/a/b.git/x.zsh", CACHE),
            format!("{}/github.com/a/b.git/y.zsh", CACHE),
        ]
    );
}

#[test]
fn add_identifier_merges_or_asks() {
    let mut plugins = Plugins::new(CACHE.to_string());
    let id = Identifier::new("a/b.git/x.zsh".to_string()).unwrap();
    match plugins.add_identifier(id.clone()) {
        AddStep::Fetch(request) => {
            assert_eq!(request.target, format!("{}/github.com/a/b.git", CACHE));
            plugins.complete_add(request.identifier, FetchOutcome::Ready(vec![])).unwrap();
        }
        other => panic!("unexpected: {:?}", other),
    }
    assert_eq!(plugins.find(&id.directory), Some(0));
    assert_eq!(plugins.find(&"github.com/none".to_string()), None);
    assert!(matches!(plugins.add_identifier(id), AddStep::Merged));
    assert_eq!(plugins.plugins().len(), 1);
    assert_eq!(plugins.cache(), CACHE);
}

#[test]
fn list_names_each_plugin_in_order() {
    let mut plugins = Plugins::new(CACHE.to_string());
    assert_eq!(plugins.list(), "");
    add(&mut plugins, "b/second.git/f.zsh", vec![]).unwrap();
    add(&mut plugins, "a/first", vec![]).unwrap();
    add(&mut plugins, "b/second.git/g.zsh", vec![]).unwrap();
    assert_eq!(plugins.list(), "b/second.git/f.zsh\na/first\n");
}

#[test]
fn update_asks_for_all_heads_of_origin() {
    let mut plugins = Plugins::new(CACHE.to_string());
    assert!(plugins.update().is_empty());
    add(&mut plugins, "a/first", vec![]).unwrap();
    add(&mut plugins, "https://gitlab.com/b/second", vec![]).unwrap();
    let jobs = plugins.update();
    assert_eq!(jobs.len(), 2);
    assert_eq!(jobs[0].name, "a/first");
    assert_eq!(jobs[0].directory, format!("{}/github.com/a/first", CACHE));
    assert_eq!(jobs[0].remote, "origin");
    assert_eq!(jobs[0].refspec, "refs/heads/*:refs/heads/*");
    assert_eq!(jobs[1].name, "https://gitlab.com/b/second");
    assert_eq!(jobs[1].directory, format!("{}/gitlab.com/b/second", CACHE));
    assert_eq!(
        jobs[0].report(
            "refs/heads/main",
            "0123456789abcdef0123456789abcdef01234567",
            "fedcba9876543210fedcba9876543210fedcba98"
        ),
        "a/first main 012345 \u{2193} fedcba"
    );
    assert_eq!(jobs[0].report("refs/tags/v1", "01", ""), "a/first refs/tags/v1 01 \u{2193} ");
}

#[test]
fn empty_registry_renders_the_trailer_alone() {
    let plugins = Plugins::new(CACHE.to_string());
    assert_eq!(plugins.render(Platform::Posix, &vec![]), TRAILER);
    assert!(plugins.basedirs().is_empty());
}

#[test]
fn trailer_comes_once_at_the_end() {
    let mut plugins = Plugins::new(CACHE.to_string());
    add(&mut plugins, "a/one", vec![file("one.zsh", 0o644)]).unwrap();
    add(&mut plugins, "a/two", vec![file("two.zsh", 0o644)]).unwrap();
    let text = plugins.render(Platform::Windows, &vec![]);
    assert!(text.ends_with(TRAILER));
    assert_eq!(text.matches("autoload").count(), 1);
    assert_eq!(
        text,
        format!(
            "# a/one\nsource {c}/github.com/a/one/one.zsh\nfpath+={c}/github.com/a/one/\nPATH={c}/github.com/a/one:$PATH\n\
             # a/two\nsource {c}/github.com/a/two/two.zsh\nfpath+={c}/github.com/a/two/\nPATH={c}/github.com/a/two:$PATH\n{t}",
            c = CACHE,
            t = TRAILER
        )
    );
}

#[test]
fn basedirs_of_all_plugins_come_once() {
    let mut plugins = Plugins::new(CACHE.to_string());
    add(&mut plugins, "a/b.git/x/one.zsh", vec![]).unwrap();
    add(&mut plugins, "a/b.git/x/two.zsh", vec![]).unwrap();
    add(&mut plugins, "a/b.git/y/three.zsh", vec![]).unwrap();
    add(&mut plugins, "a/c", vec![file("c.zsh", 0o644)]).unwrap();
    assert_eq!(
        plugins.basedirs(),
        vec![
            format!("{}/github.com/a/b.git/x", CACHE),
            format!("{}/github.com/a/b.git/y", CACHE),
            format!("{}/github.com/a/c", CACHE),
        ]
    );
}

#[test]
fn a_failure_names_its_identifier() {
    assert_eq!(blame("a/b".to_string(), "no route to host"), "a/b: no route to host");
    let mut plugins = Plugins::new(CACHE.to_string());
    let identifier = Identifier::new("a/b.git/x.zsh".to_string()).unwrap();
    let error = plugins
        .complete_add(identifier, FetchOutcome::Failed("authentication required".to_string()))
        .unwrap_err();
    assert_eq!(error.message(), "Git error: a/b.git/x.zsh: authentication required");
}

#[test]
fn plugin_given_with_a_slash_at_its_end_is_the_same_plugin() {
    let mut plugins = Plugins::new(CACHE.to_string());
    assert!(add(&mut plugins, "a/name/", vec![file("name.plugin.zsh", 0o644), file("x.zsh", 0o644)])
        .unwrap());
    assert!(!add(&mut plugins, "a/name", vec![]).unwrap());
    assert_eq!(files_of(&plugins, 0), vec![format!("{}/github.com/a/name/name.plugin.zsh", CACHE)]);
}
