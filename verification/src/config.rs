//! Experiment configuration as read from a TOML file.
//!
//! Every value is optional: a value given on the command line wins over the
//! file, and a value given in the file wins over the built-in default.
use vstd::prelude::*;

verus! {

/// The operator-selection policy handed to the puzzle generator.
#[derive(Clone, Copy, Debug, PartialEq, Eq, Structural)]
pub enum OpPolicy {
    Default,
}

/// The distribution of cage sizes handed to the puzzle generator.
#[derive(Clone, Copy, Debug, PartialEq, Eq, Structural)]
pub enum SizeDist {
    Fixed { size: usize },
    Uniform { min: usize, max: usize },
}

/// The `[generate]` section of a configuration file.
#[derive(Clone, Copy, Debug)]
pub struct GenerateFile {
    pub n: Option<usize>,
    pub seed: Option<u64>,
    pub op_policy: Option<OpPolicy>,
    pub size_distribution: Option<SizeDist>,
}

/// The `[histogram]` section of a configuration file.
#[derive(Clone, Copy, Debug)]
pub struct HistogramFile {
    pub n: Option<usize>,
    pub trials: Option<usize>,
    pub seed: Option<u64>,
    pub op_policy: Option<OpPolicy>,
    pub size_distribution: Option<SizeDist>,
    pub max_solutions: Option<usize>,
}

/// A whole configuration file; a missing section reads as an empty one.
#[derive(Clone, Copy, Debug)]
pub struct File {
    pub generate: GenerateFile,
    pub histogram: HistogramFile,
}

impl GenerateFile {
    /// A section that sets nothing.
    pub open spec fn is_empty(self) -> bool {
        &&& self.n is None
        &&& self.seed is None
        &&& self.op_policy is None
        &&& self.size_distribution is None
    }
}

impl HistogramFile {
    /// A section that sets nothing.
    pub open spec fn is_empty(self) -> bool {
        &&& self.n is None
        &&& self.trials is None
        &&& self.seed is None
        &&& self.op_policy is None
        &&& self.size_distribution is None
        &&& self.max_solutions is None
    }
}

impl Default for GenerateFile {
    fn default() -> (r: Self)
        ensures
            r.is_empty(),
    {
        GenerateFile { n: None, seed: None, op_policy: None, size_distribution: None }
    }
}

impl Default for HistogramFile {
    fn default() -> (r: Self)
        ensures
            r.is_empty(),
    {
        HistogramFile {
            n: None,
            trials: None,
            seed: None,
            op_policy: None,
            size_distribution: None,
            max_solutions: None,
        }
    }
}

impl Default for File {
    fn default() -> (r: Self)
        ensures
            r.generate.is_empty(),
            r.histogram.is_empty(),
    {
        File { generate: GenerateFile::default(), histogram: HistogramFile::default() }
    }
}

} // verus!
