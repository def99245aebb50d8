//! A zsh plugin manager, as a library without input or output.
//!
//! Given plugin identifiers (`author/name`, a repository URL, or either with
//! a file behind `.git/`), the library says where each repository comes from
//! and where its working copy lies, chooses the shell files that make up each
//! plugin, and renders the script that loads them.
//!
//! Whatever touches the disk or the network is left to the caller. The
//! registry ([`plugins::Plugins`]) asks for a working copy with a
//! [`plugins::FetchRequest`] and takes what the caller found in it; the
//! renderer takes the listings of the directories it has to judge; an update
//! is handed out as a list of fetches to make.
//!
//! - [`text`] and [`path`]: texts as sequences of characters, and paths.
//! - [`address`]: what the `url` crate reads of a repository address.
//! - [`identifier`]: parsing identifiers.
//! - [`plugin`]: resolving a plugin's files and rendering its fragment.
//! - [`plugins`]: the registry.
//! - [`script`]: reading the identifiers back from a rendered script.
//! - [`command`]: what an invocation is asked to do.
//! - [`error`]: the failures and their messages.

pub mod address;
pub mod command;
pub mod error;
pub mod identifier;
pub mod path;
pub mod plugin;
pub mod plugins;
pub mod script;
pub mod text;

pub use command::run;
pub use script::plugins_from;
