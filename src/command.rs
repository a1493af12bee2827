use vstd::prelude::*;

verus! {

/// The errors of a conversion run.
#[derive(Clone, Debug, PartialEq, Eq)]
pub enum Error {
    /// A path could not be resolved.
    Path,
    /// The input is in no known format.
    Format,
    /// No input file was given.
    NoFile,
    /// The metadata of a file could not be read.
    Metadata,
    /// The worker count is outside `1..=8`.
    Worker,
    /// Decoding a file failed.
    Dump(String),
}

/// The arguments of a conversion run.
#[derive(Clone, Debug)]
pub struct Command {
    /// The files to convert.
    pub matchers: Vec<String>,
    /// The output directory; by default the directory of each input file.
    pub output: Option<String>,
    /// Whether to report each file's progress.
    pub verbose: bool,
    /// The number of workers, from 1 to 8.
    pub worker: usize,
}

impl Default for Command {
    fn default() -> (r: Command)
        ensures
            r.matchers@.len() == 0,
            r.output is None,
            !r.verbose,
            r.worker == 0,
    {
        Command { matchers: Vec::new(), output: None, verbose: false, worker: 0 }
    }
}

impl Command {
    /// Checks the arguments: the worker count must lie in `1..=8`, and at
    /// least one file must be given.
    pub fn invalid(&self) -> (r: Result<(), Error>)
        ensures
            (self.worker < 1 || self.worker > 8) ==> r == Err::<(), Error>(Error::Worker),
            (1 <= self.worker <= 8 && self.matchers@.len() == 0) ==> r == Err::<(), Error>(
                Error::NoFile,
            ),
            (1 <= self.worker <= 8 && self.matchers@.len() > 0) ==> r is Ok,
    {
        if self.worker < 1 || self.worker > 8 {
            return Err(Error::Worker);
        }
        if self.matchers.len() == 0 {
            return Err(Error::NoFile);
        }
        Ok(())
    }
}

} // verus!
