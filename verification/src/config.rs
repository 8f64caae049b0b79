//! Configuration values for the devlog tool.
//!
//! The configuration is an explicit value constructed once by the caller —
//! typically from environment variables or defaults — and passed by
//! reference into the operations that need it.  The library treats both
//! values as opaque inputs.

use vstd::prelude::*;

verus! {

/// The mathematical value of a `Config`.
pub struct ConfigView {
    pub repo_dir: Seq<char>,
    pub editor_prog: Seq<char>,
}

/// The configuration of the devlog tool: where the repository lives and
/// which editor opens its entries.
#[derive(Debug)]
pub struct Config {
    repo_dir: String,
    editor_prog: String,
}

impl View for Config {
    type V = ConfigView;

    closed spec fn view(&self) -> ConfigView {
        ConfigView { repo_dir: self.repo_dir@, editor_prog: self.editor_prog@ }
    }
}

impl Config {
    /// Create a new configuration object with the specified configuration
    /// values.
    pub fn new(repo_dir: &str, editor_prog: &str) -> (r: Config)
        ensures
            r@ == (ConfigView { repo_dir: repo_dir@, editor_prog: editor_prog@ }),
    {
        Config { repo_dir: repo_dir.to_owned(), editor_prog: editor_prog.to_owned() }
    }

    /// The directory of the user's devlog repository, which may or may not
    /// exist.
    pub fn repo_dir(&self) -> (r: &str)
        ensures
            r@ == self@.repo_dir,
    {
        self.repo_dir.as_str()
    }

    /// The text editor program for editing devlog entry files.
    pub fn editor_prog(&self) -> (r: &str)
        ensures
            r@ == self@.editor_prog,
    {
        self.editor_prog.as_str()
    }
}

} // verus!
