//! Startup configuration checks.
//!
//! The media root must exist and hold at least one entry before the server
//! may start; refusing to start names the offending path.

use vstd::prelude::*;
use vstd::string::*;

use crate::tree::DirTree;

verus! {

/// Background-instance settings.
#[derive(Debug)]
pub struct Config {
    pub exit_minutes: u64,
    pub debug: bool,
}

impl Default for Config {
    fn default() -> (r: Self)
        ensures
            r.exit_minutes == 0 && r.debug == false,
    {
        Config { exit_minutes: 0, debug: false }
    }
}

/// Why the process refuses to start.
#[derive(Debug)]
pub enum ConfigError {
    /// No directory exists at the configured media-root path.
    MissingMediaRoot { path: String },
    /// The media-root directory holds nothing to serve.
    EmptyMediaRoot { path: String },
}

/// The startup error message, naming the offending path.
pub open spec fn spec_config_error_message(e: ConfigError) -> Seq<char> {
    match e {
        ConfigError::MissingMediaRoot { path } => "the audio folder was not found at: "@ + path@,
        ConfigError::EmptyMediaRoot { path } => "the audio folder contains nothing to serve: "@
            + path@,
    }
}

impl ConfigError {
    /// A descriptive message naming the missing or empty path.
    pub fn message(&self) -> (r: String)
        ensures
            r@ == spec_config_error_message(*self),
    {
        match self {
            ConfigError::MissingMediaRoot { path } => {
                let mut s = "the audio folder was not found at: ".to_owned();
                s.append(path.as_str());
                s
            },
            ConfigError::EmptyMediaRoot { path } => {
                let mut s = "the audio folder contains nothing to serve: ".to_owned();
                s.append(path.as_str());
                s
            },
        }
    }
}

/// Decides whether the server may start: the media root must exist
/// (`tree` is its walked picture, `None` when the path does not exist)
/// and must hold at least one file or subdirectory.
pub fn validate_media_root(tree: Option<&DirTree>, path: &str) -> (r: Result<(), ConfigError>)
    ensures
        match r {
            Result::Ok(()) => tree matches Option::Some(t) && (t.files@.len() > 0
                || t.subdirs@.len() > 0),
            Result::Err(e) => match e {
                ConfigError::MissingMediaRoot { path: p } => tree is None && p@ == path@,
                ConfigError::EmptyMediaRoot { path: p } => (tree matches Option::Some(t)
                    && t.files@.len() == 0 && t.subdirs@.len() == 0) && p@ == path@,
            },
        },
{
    match tree {
        Option::None => Result::Err(ConfigError::MissingMediaRoot { path: path.to_owned() }),
        Option::Some(t) => {
            if t.files.len() == 0 && t.subdirs.len() == 0 {
                Result::Err(ConfigError::EmptyMediaRoot { path: path.to_owned() })
            } else {
                Result::Ok(())
            }
        },
    }
}

} // verus!
