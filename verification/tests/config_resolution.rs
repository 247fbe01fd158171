use kenken_explorer::config::{File, GenerateFile, HistogramFile, OpPolicy, SizeDist};
use kenken_explorer::experiments::generate::{self, GenerateArgs};
use kenken_explorer::experiments::histogram::{self, HistogramArgs};
use kenken_explorer::experiments::{resolve_op_policy, str_eq, ConfigError, DEFAULT_N};

fn no_histogram_flags() -> HistogramArgs {
    HistogramArgs { n: None, trials: None, seed: None, op_policy: None, max_solutions: None }
}

fn histogram_section(n: usize) -> HistogramFile {
    HistogramFile {
        n: Some(n),
        trials: Some(10000),
        seed: Some(42),
        op_policy: None,
        size_distribution: Some(SizeDist::Uniform { min: 1, max: 4 }),
        max_solutions: Some(50),
    }
}

#[test]
fn default_file_sets_nothing() {
    let file = File::default();
    assert!(file.generate.n.is_none());
    assert!(file.generate.seed.is_none());
    assert!(file.generate.op_policy.is_none());
    assert!(file.generate.size_distribution.is_none());
    assert!(file.histogram.n.is_none());
    assert!(file.histogram.trials.is_none());
    assert!(file.histogram.max_solutions.is_none());
}

#[test]
fn histogram_defaults_without_flags_or_file() {
    let r = histogram::resolve(&no_histogram_flags(), &HistogramFile::default()).unwrap();
    assert_eq!(r.n, DEFAULT_N);
    assert_eq!(r.n, 4);
    assert_eq!(r.trials, 100);
    assert_eq!(r.seed, 0);
    assert_eq!(r.op_policy, OpPolicy::Default);
    assert_eq!(r.size_distribution, SizeDist::Uniform { min: 1, max: 4 });
    assert_eq!(r.max_solutions, 100);
}

#[test]
fn cli_trials_override_file_trials() {
    // `--config histogram.toml histogram --trials 500`: trials come from the
    // flag, everything else from the file.
    let args = HistogramArgs { trials: Some(500), ..no_histogram_flags() };
    let r = histogram::resolve(&args, &histogram_section(4)).unwrap();
    assert_eq!(r.trials, 500);
    assert_eq!(r.n, 4);
    assert_eq!(r.seed, 42);
    assert_eq!(r.max_solutions, 50);
    assert_eq!(r.size_distribution, SizeDist::Uniform { min: 1, max: 4 });
}

#[test]
fn file_values_override_defaults() {
    let r = histogram::resolve(&no_histogram_flags(), &histogram_section(6)).unwrap();
    assert_eq!(r.n, 6);
    assert_eq!(r.trials, 10000);
    assert_eq!(r.seed, 42);
}

#[test]
fn n_outside_one_to_nine_is_rejected() {
    let args = HistogramArgs { n: Some(10), ..no_histogram_flags() };
    let r = histogram::resolve(&args, &HistogramFile::default());
    assert_eq!(r.unwrap_err(), ConfigError::NOutOfRange(10));
    let args = HistogramArgs { n: Some(0), ..no_histogram_flags() };
    let r = histogram::resolve(&args, &HistogramFile::default());
    assert_eq!(r.unwrap_err(), ConfigError::NOutOfRange(0));
    let args = HistogramArgs { n: Some(9), ..no_histogram_flags() };
    assert_eq!(histogram::resolve(&args, &HistogramFile::default()).unwrap().n, 9);
    let args = HistogramArgs { n: Some(1), ..no_histogram_flags() };
    assert_eq!(histogram::resolve(&args, &HistogramFile::default()).unwrap().n, 1);
}

#[test]
fn zero_max_solutions_is_rejected() {
    let args = HistogramArgs { max_solutions: Some(0), trials: Some(1), ..no_histogram_flags() };
    let r = histogram::resolve(&args, &HistogramFile::default());
    assert_eq!(r.unwrap_err(), ConfigError::ZeroMaxSolutions);
}

#[test]
fn grid_size_is_checked_before_the_cap() {
    let args = HistogramArgs { n: Some(12), max_solutions: Some(0), ..no_histogram_flags() };
    let r = histogram::resolve(&args, &HistogramFile::default());
    assert_eq!(r.unwrap_err(), ConfigError::NOutOfRange(12));
}

#[test]
fn flag_n_overrides_bad_file_n() {
    let args = HistogramArgs { n: Some(3), ..no_histogram_flags() };
    let r = histogram::resolve(&args, &histogram_section(12)).unwrap();
    assert_eq!(r.n, 3);
}

#[test]
fn generate_resolution_follows_precedence() {
    let args = GenerateArgs { n: Some(4), seed: Some(42), op_policy: None };
    let cfg = GenerateFile {
        n: Some(6),
        seed: Some(7),
        op_policy: Some(OpPolicy::Default),
        size_distribution: Some(SizeDist::Fixed { size: 3 }),
    };
    let r = generate::resolve(&args, &cfg);
    assert_eq!(r.n, 4);
    assert_eq!(r.seed, 42);
    assert_eq!(r.op_policy, OpPolicy::Default);
    assert_eq!(r.size_distribution, SizeDist::Fixed { size: 3 });

    let none = GenerateArgs { n: None, seed: None, op_policy: None };
    let r = generate::resolve(&none, &cfg);
    assert_eq!(r.n, 6);
    assert_eq!(r.seed, 7);

    let r = generate::resolve(&none, &GenerateFile::default());
    assert_eq!(r.n, 4);
    assert_eq!(r.seed, 0);
    assert_eq!(r.size_distribution, SizeDist::Uniform { min: 1, max: 4 });
}

#[test]
fn default_op_policy_is_found_by_name() {
    assert_eq!(resolve_op_policy("default"), Ok(OpPolicy::Default));
}

#[test]
fn unknown_op_policy_is_rejected() {
    assert_eq!(
        resolve_op_policy("no-such-policy"),
        Err(ConfigError::UnknownOpPolicy("no-such-policy".to_string()))
    );
    assert!(resolve_op_policy("Default").is_err());
    assert!(resolve_op_policy("").is_err());
    assert!(resolve_op_policy("defaults").is_err());
}

#[test]
fn op_policy_name_round_trips() {
    let p = OpPolicy::Default;
    assert_eq!(p.name(), "default");
    assert_eq!(resolve_op_policy(p.name()), Ok(p));
}

#[test]
fn string_equality_compares_characters() {
    assert!(str_eq("abc", "abc"));
    assert!(str_eq("", ""));
    assert!(!str_eq("abc", "abd"));
    assert!(!str_eq("abc", "ab"));
    assert!(str_eq("é", "é"));
}
