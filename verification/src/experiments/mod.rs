//! What the experiments share: the default grid size, the operator-policy
//! names, the errors that a configuration can raise, and the names of the
//! uniqueness classes.
use vstd::prelude::*;

use crate::config::{OpPolicy, SizeDist};
use rand::SeedableRng;

pub mod generate;
pub mod histogram;

verus! {

/// The random-number generator that every puzzle is drawn from.
#[verifier::external_type_specification]
#[verifier::external_body]
pub struct ExChaCha8Rng(rand_chacha::ChaCha8Rng);

/// The generator that `ChaCha8Rng::seed_from_u64` builds from a seed.  The
/// source expands the seed into the key with PCG32 and nothing else, so the
/// generator is a function of the seed alone.
pub uninterp spec fn seeded_generator(seed: u64) -> rand_chacha::ChaCha8Rng;

/// Calls `SeedableRng::seed_from_u64` for `rand_chacha::ChaCha8Rng`, which
/// expands the 64-bit seed into the generator's key with PCG32.  The contract
/// claims only that the generator it returns is the one named for that seed:
/// equal seeds give equal generators.  What the generator then draws is not
/// stated.
#[verifier::external_body]
pub(crate) fn seeded_rng(seed: u64) -> (r: rand_chacha::ChaCha8Rng)
    ensures
        r == seeded_generator(seed),
{
    rand_chacha::ChaCha8Rng::seed_from_u64(seed)
}

/// Grid side length used when neither the command line nor the file sets one.
pub const DEFAULT_N: usize = 4;

/// Why an experiment's configuration was refused.
#[derive(Clone, Debug, PartialEq, Eq)]
pub enum ConfigError {
    /// No operator policy has this name.
    UnknownOpPolicy(String),
    /// The grid side length lies outside `1..=9`.
    NOutOfRange(usize),
    /// `max_solutions` is zero, so no puzzle could be counted.
    ZeroMaxSolutions,
}

/// The value of a setting: the command line's if given, else the file's if
/// given, else the default.
pub open spec fn or_default<T>(cli: Option<T>, file: Option<T>, default: T) -> T {
    match cli {
        Some(v) => v,
        None => match file {
            Some(v) => v,
            None => default,
        },
    }
}

/// A flag on the command line wins over the file and the default; a value in
/// the file wins over the default.
pub proof fn lemma_setting_precedence<T>(flag: T, file: Option<T>, file_value: T, default: T)
    ensures
        or_default(Some(flag), file, default) == flag,
        or_default(None, Some(file_value), default) == file_value,
        or_default(None::<T>, None::<T>, default) == default,
{
}

/// Picks a setting's value: command line first, then file, then default.
pub fn pick<T: Copy>(cli: Option<T>, file: Option<T>, default: T) -> (r: T)
    ensures
        r == or_default(cli, file, default),
{
    match cli {
        Some(v) => v,
        None => match file {
            Some(v) => v,
            None => default,
        },
    }
}

/// Cage sizes used when the file does not say: uniform between 1 and 4.
pub fn default_size_distribution() -> (r: SizeDist)
    ensures
        r == (SizeDist::Uniform { min: 1, max: 4 }),
{
    SizeDist::Uniform { min: 1, max: 4 }
}

/// How many solutions a puzzle has, by class.
#[derive(Clone, Copy, Debug, PartialEq, Eq, Structural)]
pub enum Uniqueness {
    NoSolution,
    Unique,
    Multiple,
}

/// The name under which each uniqueness class is reported.
pub open spec fn uniqueness_name(u: Uniqueness) -> Seq<char> {
    match u {
        Uniqueness::NoSolution => "none"@,
        Uniqueness::Unique => "unique"@,
        Uniqueness::Multiple => "multiple"@,
    }
}

/// The lower-case name of a uniqueness class.
pub fn uniqueness_str(u: Uniqueness) -> (r: &'static str)
    ensures
        r@ == uniqueness_name(u),
{
    match u {
        Uniqueness::NoSolution => "none",
        Uniqueness::Unique => "unique",
        Uniqueness::Multiple => "multiple",
    }
}

/// Whether two strings hold the same characters.
pub fn str_eq(a: &str, b: &str) -> (r: bool)
    ensures
        r == (a@ == b@),
{
    let la = a.unicode_len();
    let lb = b.unicode_len();
    if la != lb {
        return false;
    }
    let mut i: usize = 0;
    while i < la
        invariant
            la == a@.len(),
            lb == b@.len(),
            la == lb,
            i <= la,
            forall|k: int| 0 <= k < i ==> a@[k] == b@[k],
        decreases la - i,
    {
        if a.get_char(i) != b.get_char(i) {
            return false;
        }
        i = i + 1;
    }
    assert(a@ =~= b@);
    true
}

/// The name under which each operator policy is written in configuration
/// files and on the command line.
pub open spec fn op_policy_name(p: OpPolicy) -> Seq<char> {
    match p {
        OpPolicy::Default => "default"@,
    }
}

impl OpPolicy {
    /// The policy's name, as `resolve_op_policy` reads it.
    pub fn name(self) -> (r: &'static str)
        ensures
            r@ == op_policy_name(self),
    {
        match self {
            OpPolicy::Default => "default",
        }
    }
}

/// Looks an operator policy up by name; `default` is the only one.
pub fn resolve_op_policy(name: &str) -> (r: Result<OpPolicy, ConfigError>)
    ensures
        name@ == op_policy_name(OpPolicy::Default) ==> r == Ok::<OpPolicy, ConfigError>(
            OpPolicy::Default,
        ),
        name@ != op_policy_name(OpPolicy::Default) ==> (r matches Err(
            ConfigError::UnknownOpPolicy(s),
        ) && s@ == name@),
{
    if str_eq(name, "default") {
        Ok(OpPolicy::Default)
    } else {
        Err(ConfigError::UnknownOpPolicy(name.to_owned()))
    }
}

/// Reading a policy's own name gives the policy back.
pub proof fn lemma_op_policy_name_round_trip(p: OpPolicy, q: OpPolicy)
    requires
        op_policy_name(q) == op_policy_name(p),
    ensures
        q == p,
{
    match p {
        OpPolicy::Default => match q {
            OpPolicy::Default => {},
        },
    }
}

} // verus!
