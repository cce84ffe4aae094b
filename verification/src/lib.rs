//! Bookmarks for the hosts that known_hosts and ssh_config files name.
//!
//! The parsers in [`known_hosts`] and [`ssh_config`] turn the lines of a file into
//! [`Host`] records. [`Conditions`] hold include and exclude rules for each source file,
//! [`select_hosts`] leaves out the hosts that the rules or their own name exclude and
//! keeps one record for each name and protocol, and [`Host::bookmark`] says what is to be
//! written for a host. [`launchagent`] makes the property list that has the system run
//! all this again. Reading and writing files is left to the caller.
pub mod bookmark;
pub mod conditions;
pub mod config_file;
pub mod errors;
pub mod host;
pub mod known_hosts;
pub mod launchagent;
pub mod order;
pub mod selection;
pub mod ssh_config;
pub mod text;

pub use crate::bookmark::Bookmark;
pub use crate::conditions::{create_conditions, Condition, Conditions};
pub use crate::config_file::{process, ConfigFile};
pub use crate::errors::ErrorKind;
pub use crate::host::Host;
pub use crate::selection::select_hosts;
