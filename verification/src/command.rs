//! What one invocation is asked to do, decided from what the caller read of
//! the environment and of the command line.

use vstd::prelude::*;
use vstd::string::StringExecFns;
use crate::error::{Error, ErrorView};
use crate::text::{same, views};

verus! {

/// A variable of the environment, as the caller found it.
#[derive(Debug)]
pub enum Variable {
    /// The variable is not set.
    Unset,
    /// The variable holds this text.
    Text(String),
    /// The variable holds something that is no text; this is a rendering of it.
    NotUnicode(String),
}

/// What to do.
#[derive(Debug)]
pub enum Command {
    /// List the plugins of the init file.
    List,
    /// Load these plugins afresh and write the init file.
    Load(Vec<String>),
    /// Update the plugins of the init file.
    Update,
    /// Print the help text.
    Help,
}

/// The mathematical value of a [`Command`].
pub enum CommandView {
    List,
    Load(Seq<Seq<char>>),
    Update,
    Help,
}

impl View for Command {
    type V = CommandView;

    open spec fn view(&self) -> CommandView {
        match *self {
            Command::List => CommandView::List,
            Command::Load(plugins) => CommandView::Load(views(plugins@)),
            Command::Update => CommandView::Update,
            Command::Help => CommandView::Help,
        }
    }
}

/// A command, and the home directory of the plugin manager to run it in.
#[derive(Debug)]
pub struct Invocation {
    pub home: String,
    pub command: Command,
}

/// The command that a subcommand and its arguments ask for. `load` needs
/// arguments; whatever is not understood asks for help.
pub open spec fn command_for(subcommand: Seq<char>, arguments: Option<Seq<Seq<char>>>) -> CommandView {
    if subcommand == "list"@ {
        CommandView::List
    } else if subcommand == "load"@ && arguments is Some {
        CommandView::Load(arguments->0)
    } else if subcommand == "update"@ {
        CommandView::Update
    } else {
        CommandView::Help
    }
}

/// The home directory of the plugin manager: what `ZR_HOME` holds, or else
/// `.zr` in the user's home directory. Where neither is set there is none.
pub open spec fn home_for(zr_home: Option<Seq<char>>, home: Option<Seq<char>>) -> Option<
    Seq<char>,
> {
    match (zr_home, home) {
        (Some(path), _) => Some(path),
        (None, Some(user)) => Some(user + "/.zr"@),
        (None, None) => None,
    }
}

/// The text of the variable `key`, where it is set. A value that is no text
/// is an error that names the variable.
pub fn get_var(key: &str, value: Variable) -> (r: Result<Option<String>, Error>)
    ensures
        match value {
            Variable::Unset => r matches Ok(None),
            Variable::Text(text) => r matches Ok(Some(found)) && found@ == text@,
            Variable::NotUnicode(shown) => r matches Err(e) && e@
                == (ErrorView::EnvironmentVariableNotUnicode { key: key@, value: shown@ }),
        },
{
    match value {
        Variable::Unset => Ok(None),
        Variable::Text(text) => Ok(Some(text)),
        Variable::NotUnicode(shown) => Err(
            Error::EnvironmentVariableNotUnicode { key: String::from_str(key), value: shown },
        ),
    }
}

/// The text that a variable holds, where it holds one.
pub open spec fn variable_text(value: Variable) -> Option<Seq<char>> {
    match value {
        Variable::Text(text) => Some(text@),
        _ => None,
    }
}

/// Decides what an invocation does.
///
/// `zr_home` and `home` are the variables `ZR_HOME` and `HOME`. `subcommand`
/// is the first word of the command line, empty where there is none, and
/// `arguments` holds the words behind it, where the subcommand took any.
/// One of the two variables has to be set: from neither there is no home
/// directory to be had. A variable that is no text fails the call, `ZR_HOME`
/// before `HOME`.
pub fn run(
    zr_home: Variable,
    home: Variable,
    subcommand: &str,
    arguments: Option<Vec<String>>,
) -> (r: Result<Invocation, Error>)
    requires
        !(zr_home is Unset && home is Unset),
    ensures
        zr_home matches Variable::NotUnicode(shown) ==> r matches Err(e) && e@
            == (ErrorView::EnvironmentVariableNotUnicode { key: "ZR_HOME"@, value: shown@ }),
        home matches Variable::NotUnicode(shown) ==> zr_home is NotUnicode || (r matches Err(e)
            && e@ == (ErrorView::EnvironmentVariableNotUnicode { key: "HOME"@, value: shown@ })),
        zr_home is NotUnicode || home is NotUnicode || (r matches Ok(invocation) && Some(
            invocation.home@,
        ) == home_for(variable_text(zr_home), variable_text(home)) && invocation.command@
            == command_for(subcommand@, arguments_view(arguments))),
{
    let zr_home = match get_var("ZR_HOME", zr_home) {
        Ok(found) => found,
        Err(e) => {
            return Err(e);
        },
    };
    let home = match get_var("HOME", home) {
        Ok(found) => found,
        Err(e) => {
            return Err(e);
        },
    };
    let home = match zr_home {
        Some(path) => path,
        None => {
            let mut path = home.unwrap();
            path.append("/.zr");
            path
        },
    };
    let command = if same(subcommand, "list") {
        Command::List
    } else if same(subcommand, "load") && arguments.is_some() {
        Command::Load(arguments.unwrap())
    } else if same(subcommand, "update") {
        Command::Update
    } else {
        Command::Help
    };
    Ok(Invocation { home, command })
}

/// The views of the arguments, where there are any.
pub open spec fn arguments_view(arguments: Option<Vec<String>>) -> Option<Seq<Seq<char>>> {
    match arguments {
        Some(words) => Some(views(words@)),
        None => None,
    }
}

} // verus!
