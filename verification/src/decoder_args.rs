//! Configuration of the decode tool.
//!
//! Reading the command line itself is left to the caller; this module holds
//! the parsed configuration: the input files, one destination per channel,
//! and the error-policy flags.

use vstd::prelude::*;

verus! {

/// The decode tool's configuration: input files ("-" for standard input),
/// a destination per recognized channel (a channel left out is dropped;
/// `stdout` defaults to "-"), whether a decode error is fatal, and whether
/// diagnostics are suppressed.
#[derive(Clone, Debug)]
pub struct Args {
    pub files: Vec<String>,
    pub stdin: Option<String>,
    pub stdout: String,
    pub stderr: Option<String>,
    pub fatal: bool,
    pub silent: bool,
}

impl Args {
    /// Applied after command-line parsing: with no input file named,
    /// standard input ("-") is read.
    pub fn apply_default_input(&mut self)
        ensures
            old(self).files@.len() > 0 ==> *final(self) == *old(self),
            old(self).files@.len() == 0 ==> final(self).files@.len() == 1
                && final(self).files@[0]@ == "-"@,
            final(self).stdin == old(self).stdin,
            final(self).stdout == old(self).stdout,
            final(self).stderr == old(self).stderr,
            final(self).fatal == old(self).fatal,
            final(self).silent == old(self).silent,
    {
        if self.files.len() == 0 {
            self.files.push("-".to_owned());
        }
    }
}

} // verus!
