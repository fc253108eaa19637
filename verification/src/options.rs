//! What a run is asked to do: which sources to read, and in which mode.

use crate::builder::texts;
use vstd::prelude::*;

verus! {

/// The source that is read where none is named.
pub const DEFAULT_SOURCE: &'static str = "test/sample_10.log.gz";

/// The two things a run can produce.
#[derive(Clone, Copy, PartialEq, Eq, Debug, Structural)]
pub enum Mode {
    /// The merged statistics of all sources.
    Aggregate,
    /// The user agents that no dialect recognises.
    Unknown,
}

/// The configuration of a run. It always names at least one source.
pub struct Options {
    verbose: bool,
    unknown: bool,
    paths: Vec<String>,
}

impl Options {
    #[verifier::type_invariant]
    spec fn names_a_source(self) -> bool {
        self.paths@.len() >= 1
    }

    /// Whether progress is reported while the sources are read.
    pub closed spec fn spec_verbose(&self) -> bool {
        self.verbose
    }

    /// Whether only unrecognised user agents are asked for.
    pub closed spec fn spec_unknown(&self) -> bool {
        self.unknown
    }

    /// The sources to read, in order.
    pub closed spec fn sources(&self) -> Seq<Seq<char>> {
        texts(self.paths@)
    }

    /// The configuration with the given flags and sources. Where no source is
    /// given, the default source is read.
    pub fn new(verbose: bool, unknown: bool, paths: Vec<String>) -> (options: Self)
        ensures
            options.spec_verbose() == verbose,
            options.spec_unknown() == unknown,
            options.sources() == if paths@.len() == 0 {
                seq![DEFAULT_SOURCE@]
            } else {
                texts(paths@)
            },
    {
        if paths.len() == 0 {
            let mut paths = paths;
            paths.push(DEFAULT_SOURCE.to_owned());
            assert(texts(paths@) =~= seq![DEFAULT_SOURCE@]);
            Options { verbose, unknown, paths }
        } else {
            Options { verbose, unknown, paths }
        }
    }

    /// Whether progress is reported while the sources are read.
    pub fn verbose(&self) -> (verbose: bool)
        ensures
            verbose == self.spec_verbose(),
    {
        self.verbose
    }

    /// Whether only unrecognised user agents are asked for.
    pub fn unknown(&self) -> (unknown: bool)
        ensures
            unknown == self.spec_unknown(),
    {
        self.unknown
    }

    /// The sources to read, in order: at least one.
    pub fn paths(&self) -> (paths: &Vec<String>)
        ensures
            texts(paths@) == self.sources(),
            paths@.len() >= 1,
    {
        proof {
            use_type_invariant(self);
        }
        &self.paths
    }

    /// What the run produces.
    pub fn mode(&self) -> (mode: Mode)
        ensures
            mode == if self.spec_unknown() {
                Mode::Unknown
            } else {
                Mode::Aggregate
            },
    {
        if self.unknown {
            Mode::Unknown
        } else {
            Mode::Aggregate
        }
    }
}

impl Default for Options {
    /// Quiet, in aggregate mode, reading the default source.
    fn default() -> (options: Self)
        ensures
            !options.spec_verbose(),
            !options.spec_unknown(),
            options.sources() == seq![DEFAULT_SOURCE@],
    {
        Options::new(false, false, Vec::new())
    }
}

} // verus!
