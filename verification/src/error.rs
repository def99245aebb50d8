//! What can go wrong, and the one-line message for each failure.

use vstd::prelude::*;
use vstd::string::StringExecFns;

verus! {

/// A failure of one operation of the plugin manager.
#[derive(Debug)]
pub enum Error {
    /// A consulted environment variable held a value that is not text.
    EnvironmentVariableNotUnicode { key: String, value: String },
    /// An identifier without the `author/name` structure.
    InvalidPluginName { plugin_name: String },
    /// An identifier that names no repository location.
    InvalidIdentifier { identifier: String },
    /// A clone or a fetch failed.
    Fetch { message: String },
    /// A filesystem operation failed.
    Io { message: String },
}

/// The mathematical value of an [`Error`].
pub enum ErrorView {
    EnvironmentVariableNotUnicode { key: Seq<char>, value: Seq<char> },
    InvalidPluginName { plugin_name: Seq<char> },
    InvalidIdentifier { identifier: Seq<char> },
    Fetch { message: Seq<char> },
    Io { message: Seq<char> },
}

impl View for Error {
    type V = ErrorView;

    open spec fn view(&self) -> ErrorView {
        match *self {
            Error::EnvironmentVariableNotUnicode { key, value } => {
                ErrorView::EnvironmentVariableNotUnicode { key: key@, value: value@ }
            },
            Error::InvalidPluginName { plugin_name } => ErrorView::InvalidPluginName {
                plugin_name: plugin_name@,
            },
            Error::InvalidIdentifier { identifier } => ErrorView::InvalidIdentifier {
                identifier: identifier@,
            },
            Error::Fetch { message } => ErrorView::Fetch { message: message@ },
            Error::Io { message } => ErrorView::Io { message: message@ },
        }
    }
}

impl ErrorView {
    /// The user-facing line for this failure.
    pub open spec fn message(self) -> Seq<char> {
        match self {
            ErrorView::EnvironmentVariableNotUnicode { key, value } => {
                "The value in the environment variable '"@ + key + "' is not utf-8: "@ + value
            },
            ErrorView::InvalidPluginName { plugin_name } => {
                "The plugin name must be formatted 'author/name', found '"@ + plugin_name + "'"@
            },
            ErrorView::InvalidIdentifier { identifier } => {
                "'"@ + identifier + "' is not a valid identifier"@
            },
            ErrorView::Fetch { message } => "Git error: "@ + message,
            ErrorView::Io { message } => "Io error: "@ + message,
        }
    }
}

impl Error {
    /// The user-facing line for this failure.
    pub fn message(&self) -> (text: String)
        ensures
            text@ == self@.message(),
    {
        match self {
            Error::EnvironmentVariableNotUnicode { key, value } => {
                let mut text = String::from_str("The value in the environment variable '");
                text.append(key.as_str());
                text.append("' is not utf-8: ");
                text.append(value.as_str());
                text
            },
            Error::InvalidPluginName { plugin_name } => {
                let mut text = String::from_str(
                    "The plugin name must be formatted 'author/name', found '",
                );
                text.append(plugin_name.as_str());
                text.append("'");
                text
            },
            Error::InvalidIdentifier { identifier } => {
                let mut text = String::from_str("'");
                text.append(identifier.as_str());
                text.append("' is not a valid identifier");
                text
            },
            Error::Fetch { message } => {
                let mut text = String::from_str("Git error: ");
                text.append(message.as_str());
                text
            },
            Error::Io { message } => {
                let mut text = String::from_str("Io error: ");
                text.append(message.as_str());
                text
            },
        }
    }
}

} // verus!
