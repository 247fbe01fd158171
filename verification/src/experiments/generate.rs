//! The spot-check experiment: generate one puzzle from one seed.
use vstd::prelude::*;

use crate::config::{GenerateFile, OpPolicy, SizeDist};
use crate::experiments::{default_size_distribution, or_default, pick, seeded_generator, seeded_rng, DEFAULT_N};

verus! {

/// Seed used when neither the command line nor the file sets one.
pub const DEFAULT_SEED: u64 = 0;

/// The `generate` subcommand's flags; a flag left out is `None`.
#[derive(Clone, Copy, Debug)]
pub struct GenerateArgs {
    pub n: Option<usize>,
    pub seed: Option<u64>,
    pub op_policy: Option<OpPolicy>,
}

/// The settings the experiment runs with, once flags, file and defaults are
/// merged.
#[derive(Clone, Copy, Debug)]
pub struct Resolved {
    pub n: usize,
    pub seed: u64,
    pub op_policy: OpPolicy,
    pub size_distribution: SizeDist,
}

/// Merges flags, file and defaults: a flag wins over the file, the file wins
/// over the default.  The cage-size distribution has no flag.  The grid size
/// is not checked here: the generator refuses the sizes it cannot build.
pub fn resolve(args: &GenerateArgs, cfg: &GenerateFile) -> (r: Resolved)
    ensures
        r.n == or_default(args.n, cfg.n, DEFAULT_N),
        r.seed == or_default(args.seed, cfg.seed, DEFAULT_SEED),
        r.op_policy == or_default(args.op_policy, cfg.op_policy, OpPolicy::Default),
        r.size_distribution == or_default(
            None,
            cfg.size_distribution,
            SizeDist::Uniform { min: 1, max: 4 },
        ),
{
    Resolved {
        n: pick(args.n, cfg.n, DEFAULT_N),
        seed: pick(args.seed, cfg.seed, DEFAULT_SEED),
        op_policy: pick(args.op_policy, cfg.op_policy, OpPolicy::Default),
        size_distribution: pick(None, cfg.size_distribution, default_size_distribution()),
    }
}

/// The generator the puzzle is drawn from, seeded with the resolved seed.
pub fn puzzle_rng(resolved: &Resolved) -> (r: rand_chacha::ChaCha8Rng)
    ensures
        r == seeded_generator(resolved.seed),
{
    seeded_rng(resolved.seed)
}

} // verus!
