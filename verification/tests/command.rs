use zr::command::{get_var, Command, Variable};
use zr::error::Error;
use zr::run;

fn text(value: &str) -> Variable {
    Variable::Text(value.to_string())
}

fn words(list: &[&str]) -> Option<Vec<String>> {
    Some(list.iter().map(|s| s.to_string()).collect())
}

#[test]
fn get_var_passes_text_on() {
    assert_eq!(get_var("HOME", text("/home/me")).unwrap(), Some("/home/me".to_string()));
    assert_eq!(get_var("HOME", Variable::Unset).unwrap(), None);
    match get_var("ZR_HOME", Variable::NotUnicode("fo\u{fffd}o".to_string())) {
        Err(Error::EnvironmentVariableNotUnicode { key, value }) => {
            assert_eq!(key, "ZR_HOME");
            assert_eq!(value, "fo\u{fffd}o");
        }
        other => panic!("unexpected: {:?}", other),
    }
}

#[test]
fn home_defaults_to_dot_zr() {
    let invocation = run(Variable::Unset, text("/home/me"), "list", None).unwrap();
    assert_eq!(invocation.home, "/home/me/.zr");
    assert!(matches!(invocation.command, Command::List));
    let invocation = run(text("/opt/zr"), text("/home/me"), "update", None).unwrap();
    assert_eq!(invocation.home, "/opt/zr");
    assert!(matches!(invocation.command, Command::Update));
    let invocation = run(text("/opt/zr"), Variable::Unset, "list", None).unwrap();
    assert_eq!(invocation.home, "/opt/zr");
    assert!(matches!(invocation.command, Command::List));
}

#[test]
fn load_takes_its_plugins() {
    let invocation = run(Variable::Unset, text("/h"), "load", words(&["a/b", "c/d"])).unwrap();
    match invocation.command {
        Command::Load(plugins) => assert_eq!(plugins, vec!["a/b".to_string(), "c/d".to_string()]),
        other => panic!("unexpected: {:?}", other),
    }
    let invocation = run(Variable::Unset, text("/h"), "load", None).unwrap();
    assert!(matches!(invocation.command, Command::Help));
}

#[test]
fn anything_else_asks_for_help() {
    for subcommand in ["", "help", "lists", "List", "remove"] {
        let invocation = run(Variable::Unset, text("/h"), subcommand, words(&["x"])).unwrap();
        assert!(matches!(invocation.command, Command::Help), "{}", subcommand);
    }
    let invocation = run(Variable::Unset, text("/h"), "list", words(&["x"])).unwrap();
    assert!(matches!(invocation.command, Command::List));
}

#[test]
fn variables_that_are_no_text_fail_in_order() {
    match run(Variable::NotUnicode("z".to_string()), Variable::NotUnicode("h".to_string()), "list", None) {
        Err(Error::EnvironmentVariableNotUnicode { key, value }) => {
            assert_eq!(key, "ZR_HOME");
            assert_eq!(value, "z");
        }
        other => panic!("unexpected: {:?}", other),
    }
    match run(Variable::NotUnicode("z".to_string()), Variable::Unset, "list", None) {
        Err(Error::EnvironmentVariableNotUnicode { key, .. }) => assert_eq!(key, "ZR_HOME"),
        other => panic!("unexpected: {:?}", other),
    }
    match run(Variable::Unset, Variable::NotUnicode("h".to_string()), "list", None) {
        Err(Error::EnvironmentVariableNotUnicode { key, .. }) => assert_eq!(key, "HOME"),
        other => panic!("unexpected: {:?}", other),
    }
    match run(text("/opt/zr"), Variable::NotUnicode("h".to_string()), "list", None) {
        Err(Error::EnvironmentVariableNotUnicode { key, value }) => {
            assert_eq!(key, "HOME");
            assert_eq!(value, "h");
        }
        other => panic!("unexpected: {:?}", other),
    }
}

#[test]
fn every_error_has_its_message() {
    assert_eq!(
        Error::EnvironmentVariableNotUnicode { key: "HOME".to_string(), value: "x\u{fffd}".to_string() }
            .message(),
        "The value in the environment variable 'HOME' is not utf-8: x\u{fffd}"
    );
    assert_eq!(
        Error::InvalidPluginName { plugin_name: "not-a-plugin".to_string() }.message(),
        "The plugin name must be formatted 'author/name', found 'not-a-plugin'"
    );
    assert_eq!(
        Error::InvalidIdentifier { identifier: "mailto:a/b".to_string() }.message(),
        "'mailto:a/b' is not a valid identifier"
    );
    assert_eq!(Error::Fetch { message: "auth".to_string() }.message(), "Git error: auth");
    assert_eq!(Error::Io { message: "denied".to_string() }.message(), "Io error: denied");
}
