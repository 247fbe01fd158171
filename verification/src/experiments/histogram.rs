//! The main experiment: generate many puzzles, count the solutions of each
//! (up to a cap) and report how often each solution count occurred.
use vstd::prelude::*;

use crate::config::{HistogramFile, OpPolicy, SizeDist};
use crate::experiments::{default_size_distribution, pick, seeded_generator, seeded_rng, ConfigError, DEFAULT_N};

verus! {

broadcast use vstd::seq_lib::group_to_multiset_ensures, vstd::multiset::group_multiset_axioms;

/// Number of puzzles generated when neither the command line nor the file says.
pub const DEFAULT_TRIALS: usize = 100;

/// Master seed used when neither the command line nor the file sets one.
pub const DEFAULT_SEED: u64 = 0;

/// Per-puzzle solution-count cap used when neither the command line nor the
/// file sets one.
pub const DEFAULT_MAX_SOLUTIONS: usize = 100;

/// The `histogram` subcommand's flags; a flag left out is `None`.
#[derive(Clone, Copy, Debug)]
pub struct HistogramArgs {
    pub n: Option<usize>,
    pub trials: Option<usize>,
    pub seed: Option<u64>,
    pub op_policy: Option<OpPolicy>,
    pub max_solutions: Option<usize>,
}

/// The settings an experiment runs with, once flags, file and defaults are
/// merged.
#[derive(Clone, Copy, Debug)]
pub struct Resolved {
    pub n: usize,
    pub trials: usize,
    pub seed: u64,
    pub op_policy: OpPolicy,
    pub size_distribution: SizeDist,
    pub max_solutions: usize,
}

/// The merged settings, before they are checked: a flag wins over the file,
/// the file wins over the default.  The cage-size distribution has no flag.
pub open spec fn merged(args: HistogramArgs, cfg: HistogramFile) -> Resolved {
    Resolved {
        n: crate::experiments::or_default(args.n, cfg.n, DEFAULT_N),
        trials: crate::experiments::or_default(args.trials, cfg.trials, DEFAULT_TRIALS),
        seed: crate::experiments::or_default(args.seed, cfg.seed, DEFAULT_SEED),
        op_policy: crate::experiments::or_default(args.op_policy, cfg.op_policy, OpPolicy::Default),
        size_distribution: crate::experiments::or_default(
            None,
            cfg.size_distribution,
            SizeDist::Uniform { min: 1, max: 4 },
        ),
        max_solutions: crate::experiments::or_default(
            args.max_solutions,
            cfg.max_solutions,
            DEFAULT_MAX_SOLUTIONS,
        ),
    }
}

/// The outcome of resolving: the merged settings, unless the grid side lies
/// outside `1..=9` or, failing that, the cap is zero.
pub open spec fn resolution(args: HistogramArgs, cfg: HistogramFile) -> Result<Resolved, ConfigError> {
    let m = merged(args, cfg);
    if !(1 <= m.n <= 9) {
        Err(ConfigError::NOutOfRange(m.n))
    } else if m.max_solutions == 0 {
        Err(ConfigError::ZeroMaxSolutions)
    } else {
        Ok(m)
    }
}

/// Merges flags, file and defaults, then refuses a grid side outside `1..=9`
/// and a zero solution cap, in that order.
pub fn resolve(args: &HistogramArgs, cfg: &HistogramFile) -> (r: Result<Resolved, ConfigError>)
    ensures
        r == resolution(*args, *cfg),
        r matches Ok(res) ==> (args.n matches Some(v) ==> res.n == v),
        r matches Ok(res) ==> (args.trials matches Some(v) ==> res.trials == v),
        r matches Ok(res) ==> (args.seed matches Some(v) ==> res.seed == v),
        r matches Ok(res) ==> (args.op_policy matches Some(v) ==> res.op_policy == v),
        r matches Ok(res) ==> (args.max_solutions matches Some(v) ==> res.max_solutions == v),
        r matches Ok(res) ==> (cfg.size_distribution matches Some(d) ==> res.size_distribution
            == d),
{
    let resolved = Resolved {
        n: pick(args.n, cfg.n, DEFAULT_N),
        trials: pick(args.trials, cfg.trials, DEFAULT_TRIALS),
        seed: pick(args.seed, cfg.seed, DEFAULT_SEED),
        op_policy: pick(args.op_policy, cfg.op_policy, OpPolicy::Default),
        size_distribution: pick(None, cfg.size_distribution, default_size_distribution()),
        max_solutions: pick(args.max_solutions, cfg.max_solutions, DEFAULT_MAX_SOLUTIONS),
    };
    if !(1 <= resolved.n && resolved.n <= 9) {
        return Err(ConfigError::NOutOfRange(resolved.n));
    }
    if resolved.max_solutions == 0 {
        return Err(ConfigError::ZeroMaxSolutions);
    }
    Ok(resolved)
}

/// The seed of trial `index`: the master seed plus the index, wrapping at
/// `2^64`.  It depends on the index alone, not on the order in which trials run.
pub open spec fn trial_seed_spec(master_seed: u64, index: usize) -> u64 {
    ((master_seed as int + index as int) % 0x1_0000_0000_0000_0000) as u64
}

/// The seed that trial `index` draws its puzzle from.
pub fn trial_seed(master_seed: u64, index: usize) -> (r: u64)
    ensures
        r == trial_seed_spec(master_seed, index),
        r as int == (master_seed as int + index as int) % 0x1_0000_0000_0000_0000,
{
    let i: u64 = index as u64;
    master_seed.wrapping_add(i)
}

/// The generator that trial `index` draws its puzzle from, seeded with
/// `trial_seed(master_seed, index)`.
pub fn trial_rng(master_seed: u64, index: usize) -> (r: rand_chacha::ChaCha8Rng)
    ensures
        r == seeded_generator(trial_seed_spec(master_seed, index)),
{
    seeded_rng(trial_seed(master_seed, index))
}

/// A flag given on the command line is the resolved value of its setting,
/// whatever the file says; only where no flag is given does the file's value
/// apply, and only where neither is given does the default.
pub proof fn lemma_histogram_flag_over_file_over_default(args: HistogramArgs, cfg: HistogramFile)
    ensures
        args.n matches Some(v) ==> merged(args, cfg).n == v,
        args.trials matches Some(v) ==> merged(args, cfg).trials == v,
        args.seed matches Some(v) ==> merged(args, cfg).seed == v,
        args.op_policy matches Some(v) ==> merged(args, cfg).op_policy == v,
        args.max_solutions matches Some(v) ==> merged(args, cfg).max_solutions == v,
        args.n is None ==> (cfg.n matches Some(v) ==> merged(args, cfg).n == v),
        args.trials is None ==> (cfg.trials matches Some(v) ==> merged(args, cfg).trials == v),
        args.seed is None ==> (cfg.seed matches Some(v) ==> merged(args, cfg).seed == v),
        args.op_policy is None ==> (cfg.op_policy matches Some(v) ==> merged(args, cfg).op_policy
            == v),
        args.max_solutions is None ==> (cfg.max_solutions matches Some(v) ==> merged(
            args,
            cfg,
        ).max_solutions == v),
        args.n is None && cfg.n is None ==> merged(args, cfg).n == 4,
        args.trials is None && cfg.trials is None ==> merged(args, cfg).trials == 100,
        args.seed is None && cfg.seed is None ==> merged(args, cfg).seed == 0,
        args.op_policy is None && cfg.op_policy is None ==> merged(args, cfg).op_policy
            == OpPolicy::Default,
        args.max_solutions is None && cfg.max_solutions is None ==> merged(
            args,
            cfg,
        ).max_solutions == 100,
        cfg.size_distribution matches Some(d) ==> merged(args, cfg).size_distribution == d,
        cfg.size_distribution is None ==> merged(args, cfg).size_distribution == (SizeDist::Uniform {
            min: 1,
            max: 4,
        }),
{
}

/// Settings whose grid size and cap are valid are accepted as merged, so a
/// flag's value reaches the experiment: with a grid size in `1..=9` and a
/// positive cap, whether from flags, file or defaults, resolution succeeds
/// and keeps every flag given.
pub proof fn lemma_histogram_valid_settings_accepted(args: HistogramArgs, cfg: HistogramFile)
    requires
        args.n matches Some(k) ==> 1 <= k <= 9,
        args.n is None ==> (cfg.n matches Some(k) ==> 1 <= k <= 9),
        args.max_solutions matches Some(c) ==> c > 0,
        args.max_solutions is None ==> (cfg.max_solutions matches Some(c) ==> c > 0),
    ensures
        resolution(args, cfg) is Ok,
        resolution(args, cfg) matches Ok(res) ==> (args.seed matches Some(v) ==> res.seed == v),
        resolution(args, cfg) matches Ok(res) ==> (args.max_solutions matches Some(v)
            ==> res.max_solutions == v),
        resolution(args, cfg) matches Ok(res) ==> (args.n matches Some(v) ==> res.n == v),
        resolution(args, cfg) matches Ok(res) ==> (args.trials matches Some(v) ==> res.trials
            == v),
        resolution(args, cfg) matches Ok(res) ==> (args.op_policy matches Some(v) ==> res.op_policy
            == v),
        resolution(args, cfg) matches Ok(res) ==> (cfg.size_distribution matches Some(d)
            ==> res.size_distribution == d),
{
}

/// A grid side given as a flag outside `1..=9` is refused with that size,
/// whatever the file says; with a valid grid side, a zero cap given as a flag
/// is refused.
pub proof fn lemma_histogram_bad_flags_refused(args: HistogramArgs, cfg: HistogramFile)
    ensures
        args.n matches Some(k) ==> (!(1 <= k <= 9) ==> resolution(args, cfg) == Err::<
            Resolved,
            ConfigError,
        >(ConfigError::NOutOfRange(k))),
        args.n matches Some(k) ==> (1 <= k <= 9 && args.max_solutions == Some(0usize)
            ==> resolution(args, cfg) == Err::<Resolved, ConfigError>(
            ConfigError::ZeroMaxSolutions,
        )),
{
}

/// The first trial draws from the master seed itself.
pub proof fn lemma_first_trial_seed_is_master(master_seed: u64)
    ensures
        trial_seed_spec(master_seed, 0) == master_seed,
{
}

/// Each trial's seed is one past the previous trial's, wrapping from the
/// largest `u64` to zero.
pub proof fn lemma_next_trial_seed(master_seed: u64, index: usize)
    requires
        index < usize::MAX,
    ensures
        trial_seed_spec(master_seed, (index + 1) as usize) == if trial_seed_spec(master_seed, index)
            == u64::MAX {
            0u64
        } else {
            (trial_seed_spec(master_seed, index) + 1) as u64
        },
{
    let n: int = 0x1_0000_0000_0000_0000;
    let a: int = master_seed as int + index as int;
    assert(0 <= a < 2 * n);
    assert(a % n == if a >= n { a - n } else { a });
    assert((a + 1) % n == if a + 1 >= n { a + 1 - n } else { a + 1 });
}

/// One histogram bar: how many puzzles had exactly `solutions` solutions
/// (after capping).
#[derive(Clone, Copy, Debug, PartialEq, Eq, Structural)]
pub struct Bucket {
    pub solutions: usize,
    pub count: usize,
}

/// The experiment's result, apart from the unique-solution rate, which is
/// `unique_count / trials` as a float.
#[derive(Clone, Debug)]
pub struct ResultData {
    pub histogram: Vec<Bucket>,
    pub cap_bucket: usize,
    pub no_solution_count: usize,
    pub unique_count: usize,
    pub multi_solution_count: usize,
}

/// How many trials reported exactly `v` solutions.
pub open spec fn occurrences(counts: Seq<usize>, v: usize) -> nat {
    counts.to_multiset().count(v)
}

/// How many trials reported at least `lo` solutions.
pub open spec fn count_at_least(counts: Seq<usize>, lo: usize) -> nat
    decreases counts.len(),
{
    if counts.len() == 0 {
        0
    } else {
        count_at_least(counts.drop_last(), lo) + if counts.last() >= lo {
            1nat
        } else {
            0nat
        }
    }
}

/// Whether some bar of `buckets` is for `v` solutions.
pub open spec fn has_bucket(buckets: Seq<Bucket>, v: usize) -> bool {
    exists|i: int| 0 <= i < buckets.len() && #[trigger] buckets[i].solutions == v
}

/// `buckets` is the histogram of `counts`: one bar per solution count that
/// occurs, in increasing order of solution count, each with the number of
/// trials that reported it.
pub open spec fn is_histogram_of(buckets: Seq<Bucket>, counts: Seq<usize>) -> bool {
    &&& forall|i: int, j: int|
        0 <= i < j < buckets.len() ==> #[trigger] buckets[i].solutions
            < #[trigger] buckets[j].solutions
    &&& forall|i: int|
        0 <= i < buckets.len() ==> #[trigger] buckets[i].count == occurrences(
            counts,
            buckets[i].solutions,
        ) && buckets[i].count > 0
    &&& forall|k: int| 0 <= k < counts.len() ==> has_bucket(buckets, #[trigger] counts[k])
}

/// Adding one more count to a sequence adds one occurrence of it.
proof fn lemma_occurrences_push(s: Seq<usize>, x: usize, v: usize)
    ensures
        occurrences(s.push(x), v) == occurrences(s, v) + if v == x {
            1nat
        } else {
            0nat
        },
{
    assert(s.push(x).to_multiset() =~= s.to_multiset().insert(x));
}

/// No value occurs more often than the sequence is long.
proof fn lemma_occurrences_le_len(s: Seq<usize>, v: usize)
    ensures
        occurrences(s, v) <= s.len(),
{
    assert(s.to_multiset().len() == s.len());
}

/// Builds the histogram by inserting each count into a list of bars kept in
/// increasing order of solution count.
fn build_histogram(counts: &Vec<usize>) -> (r: Vec<Bucket>)
    ensures
        is_histogram_of(r@, counts@),
{
    let mut buckets: Vec<Bucket> = Vec::new();
    let len = counts.len();
    let mut i: usize = 0;
    assert(counts@.take(0) =~= Seq::<usize>::empty());
    while i < len
        invariant
            len == counts@.len(),
            i <= len,
            is_histogram_of(buckets@, counts@.take(i as int)),
        decreases len - i,
    {
        let x = counts[i];
        let ghost pre = counts@.take(i as int);
        let ghost post = counts@.take(i as int + 1);
        assert(post =~= pre.push(x));
        let ghost old_b = buckets@;
        let mut j: usize = 0;
        while j < buckets.len() && buckets[j].solutions < x
            invariant
                buckets@ == old_b,
                j <= buckets.len(),
                forall|k: int| 0 <= k < j ==> #[trigger] buckets@[k].solutions < x,
            decreases buckets.len() - j,
        {
            j = j + 1;
        }
        if j < buckets.len() && buckets[j].solutions == x {
            let b = buckets[j];
            proof {
                lemma_occurrences_le_len(pre, x);
            }
            buckets.set(j, Bucket { solutions: x, count: b.count + 1 });
            proof {
                assert forall|k: int| 0 <= k < buckets@.len() implies #[trigger] buckets@[k].count
                    == occurrences(post, buckets@[k].solutions) && buckets@[k].count > 0 by {
                    lemma_occurrences_push(pre, x, buckets@[k].solutions);
                }
                assert forall|k: int| 0 <= k < post.len() implies has_bucket(
                    buckets@,
                    #[trigger] post[k],
                ) by {
                    if k < pre.len() {
                        assert(pre[k] == post[k]);
                        let w = choose|w: int| 0 <= w < old_b.len() && #[trigger] old_b[w].solutions == pre[k];
                        assert(buckets@[w].solutions == pre[k]);
                    } else {
                        assert(buckets@[j as int].solutions == x);
                    }
                }
            }
        } else {
            proof {
                assert forall|k: int| j <= k < old_b.len() implies #[trigger] old_b[k].solutions > x by {
                    if k > j {
                        assert(old_b[j as int].solutions < old_b[k].solutions);
                    }
                }
            }
            buckets.insert(j, Bucket { solutions: x, count: 1 });
            proof {
                assert(buckets@ == old_b.insert(j as int, Bucket { solutions: x, count: 1 }));
                assert forall|a: int, c: int| 0 <= a < c < buckets@.len() implies #[trigger] buckets@[a].solutions
                    < #[trigger] buckets@[c].solutions by {
                    if c < j {
                    } else if c == j {
                    } else if a < j {
                        assert(buckets@[c] == old_b[c - 1]);
                    } else if a == j {
                        assert(buckets@[c] == old_b[c - 1]);
                    } else {
                        assert(buckets@[a] == old_b[a - 1]);
                        assert(buckets@[c] == old_b[c - 1]);
                    }
                }
                assert forall|k: int| 0 <= k < buckets@.len() implies #[trigger] buckets@[k].count
                    == occurrences(post, buckets@[k].solutions) && buckets@[k].count > 0 by {
                    lemma_occurrences_push(pre, x, buckets@[k].solutions);
                    if k == j {
                        if occurrences(pre, x) > 0 {
                            assert(pre.to_multiset().count(x) > 0);
                            assert(pre.contains(x));
                            let w = choose|w: int| 0 <= w < pre.len() && pre[w] == x;
                            assert(has_bucket(old_b, pre[w]));
                            let q = choose|q: int| 0 <= q < old_b.len() && #[trigger] old_b[q].solutions == pre[w];
                            if q < j {
                                assert(old_b[q].solutions < x);
                            } else {
                                assert(old_b[q].solutions > x);
                            }
                        }
                    } else if k > j {
                        assert(buckets@[k] == old_b[k - 1]);
                    }
                }
                assert forall|k: int| 0 <= k < post.len() implies has_bucket(
                    buckets@,
                    #[trigger] post[k],
                ) by {
                    if k < pre.len() {
                        assert(pre[k] == post[k]);
                        let w = choose|w: int| 0 <= w < old_b.len() && #[trigger] old_b[w].solutions == pre[k];
                        if w < j {
                            assert(buckets@[w].solutions == pre[k]);
                        } else {
                            assert(buckets@[w + 1].solutions == pre[k]);
                        }
                    } else {
                        assert(buckets@[j as int].solutions == x);
                    }
                }
            }
        }
        i = i + 1;
    }
    assert(counts@.take(len as int) =~= counts@);
    buckets
}


/// Counts the trials that reported exactly `v` solutions.
fn count_equal(counts: &Vec<usize>, v: usize) -> (r: usize)
    ensures
        r == occurrences(counts@, v),
{
    let len = counts.len();
    let mut n: usize = 0;
    let mut i: usize = 0;
    assert(counts@.take(0) =~= Seq::<usize>::empty());
    while i < len
        invariant
            len == counts@.len(),
            i <= len,
            n == occurrences(counts@.take(i as int), v),
        decreases len - i,
    {
        proof {
            assert(counts@.take(i as int + 1) =~= counts@.take(i as int).push(counts@[i as int]));
            lemma_occurrences_push(counts@.take(i as int), counts@[i as int], v);
            lemma_occurrences_le_len(counts@.take(i as int), v);
        }
        if counts[i] == v {
            n = n + 1;
        }
        i = i + 1;
    }
    assert(counts@.take(len as int) =~= counts@);
    n
}

/// Counts the trials that reported at least `lo` solutions.
fn count_at_least_of(counts: &Vec<usize>, lo: usize) -> (r: usize)
    ensures
        r == count_at_least(counts@, lo),
{
    let len = counts.len();
    let mut n: usize = 0;
    let mut i: usize = 0;
    assert(counts@.take(0) =~= Seq::<usize>::empty());
    while i < len
        invariant
            len == counts@.len(),
            i <= len,
            n == count_at_least(counts@.take(i as int), lo),
            n <= i,
        decreases len - i,
    {
        proof {
            assert(counts@.take(i as int + 1).drop_last() =~= counts@.take(i as int));
        }
        if counts[i] >= lo {
            n = n + 1;
        }
        i = i + 1;
    }
    assert(counts@.take(len as int) =~= counts@);
    n
}

/// Summarises the capped solution counts of all trials: the histogram in
/// increasing order of solution count, the cap, and how many trials had no,
/// exactly one, and two or more solutions.
pub fn summarize(counts: &Vec<usize>, max_solutions: usize) -> (r: ResultData)
    ensures
        is_histogram_of(r.histogram@, counts@),
        r.cap_bucket == max_solutions,
        r.no_solution_count == occurrences(counts@, 0),
        r.unique_count == occurrences(counts@, 1),
        r.multi_solution_count == count_at_least(counts@, 2),
{
    let histogram = build_histogram(counts);
    let no_solution_count = count_equal(counts, 0);
    let unique_count = count_equal(counts, 1);
    let multi_solution_count = count_at_least_of(counts, 2);
    ResultData {
        histogram,
        cap_bucket: max_solutions,
        no_solution_count,
        unique_count,
        multi_solution_count,
    }
}


/// The sum of the bar heights.
pub open spec fn total_count(buckets: Seq<Bucket>) -> nat
    decreases buckets.len(),
{
    if buckets.len() == 0 {
        0
    } else {
        total_count(buckets.drop_last()) + buckets.last().count as nat
    }
}

/// The number of bars for `v` solutions.
spec fn key_hits(buckets: Seq<Bucket>, v: usize) -> nat
    decreases buckets.len(),
{
    if buckets.len() == 0 {
        0
    } else {
        key_hits(buckets.drop_last(), v) + if buckets.last().solutions == v {
            1nat
        } else {
            0nat
        }
    }
}

/// The sum, over the bars, of how often each bar's solution count occurs.
spec fn total_occurrences(buckets: Seq<Bucket>, counts: Seq<usize>) -> nat
    decreases buckets.len(),
{
    if buckets.len() == 0 {
        0
    } else {
        total_occurrences(buckets.drop_last(), counts) + occurrences(
            counts,
            buckets.last().solutions,
        )
    }
}

/// The bars are in strictly increasing order of solution count.
spec fn strictly_sorted(buckets: Seq<Bucket>) -> bool {
    forall|i: int, j: int|
        0 <= i < j < buckets.len() ==> #[trigger] buckets[i].solutions
            < #[trigger] buckets[j].solutions
}

proof fn lemma_total_count_is_total_occurrences(buckets: Seq<Bucket>, counts: Seq<usize>)
    requires
        forall|i: int|
            0 <= i < buckets.len() ==> #[trigger] buckets[i].count == occurrences(
                counts,
                buckets[i].solutions,
            ),
    ensures
        total_count(buckets) == total_occurrences(buckets, counts),
    decreases buckets.len(),
{
    if buckets.len() > 0 {
        let init = buckets.drop_last();
        assert forall|i: int| 0 <= i < init.len() implies #[trigger] init[i].count == occurrences(
            counts,
            init[i].solutions,
        ) by {
            assert(init[i] == buckets[i]);
        }
        lemma_total_count_is_total_occurrences(init, counts);
        assert(buckets[buckets.len() - 1] == buckets.last());
    }
}

proof fn lemma_total_occurrences_push(buckets: Seq<Bucket>, counts: Seq<usize>, x: usize)
    ensures
        total_occurrences(buckets, counts.push(x)) == total_occurrences(buckets, counts)
            + key_hits(buckets, x),
    decreases buckets.len(),
{
    if buckets.len() > 0 {
        lemma_total_occurrences_push(buckets.drop_last(), counts, x);
        lemma_occurrences_push(counts, x, buckets.last().solutions);
    }
}

proof fn lemma_key_hits_absent(buckets: Seq<Bucket>, v: usize)
    requires
        forall|i: int| 0 <= i < buckets.len() ==> #[trigger] buckets[i].solutions != v,
    ensures
        key_hits(buckets, v) == 0,
    decreases buckets.len(),
{
    if buckets.len() > 0 {
        let init = buckets.drop_last();
        assert forall|i: int| 0 <= i < init.len() implies #[trigger] init[i].solutions != v by {
            assert(init[i] == buckets[i]);
        }
        lemma_key_hits_absent(init, v);
        assert(buckets[buckets.len() - 1] == buckets.last());
    }
}

proof fn lemma_key_hits_present(buckets: Seq<Bucket>, v: usize)
    requires
        strictly_sorted(buckets),
        has_bucket(buckets, v),
    ensures
        key_hits(buckets, v) == 1,
    decreases buckets.len(),
{
    let init = buckets.drop_last();
    let last = buckets.len() - 1;
    assert(buckets[last] == buckets.last());
    assert(strictly_sorted(init)) by {
        assert forall|i: int, j: int| 0 <= i < j < init.len() implies #[trigger] init[i].solutions
            < #[trigger] init[j].solutions by {
            assert(init[i] == buckets[i]);
            assert(init[j] == buckets[j]);
        }
    }
    if buckets.last().solutions == v {
        assert forall|i: int| 0 <= i < init.len() implies #[trigger] init[i].solutions != v by {
            assert(init[i] == buckets[i]);
            assert(buckets[i].solutions < buckets[last].solutions);
        }
        lemma_key_hits_absent(init, v);
    } else {
        let w = choose|w: int| 0 <= w < buckets.len() && #[trigger] buckets[w].solutions == v;
        assert(init[w] == buckets[w]);
        assert(has_bucket(init, v));
        lemma_key_hits_present(init, v);
    }
}

proof fn lemma_total_occurrences_covering(buckets: Seq<Bucket>, counts: Seq<usize>)
    requires
        strictly_sorted(buckets),
        forall|k: int| 0 <= k < counts.len() ==> has_bucket(buckets, #[trigger] counts[k]),
    ensures
        total_occurrences(buckets, counts) == counts.len(),
    decreases counts.len(),
{
    if counts.len() == 0 {
        lemma_total_occurrences_empty(buckets, counts);
    } else {
        let init = counts.drop_last();
        let x = counts.last();
        assert(counts =~= init.push(x));
        assert forall|k: int| 0 <= k < init.len() implies has_bucket(buckets, #[trigger] init[k]) by {
            assert(init[k] == counts[k]);
        }
        lemma_total_occurrences_covering(buckets, init);
        lemma_total_occurrences_push(buckets, init, x);
        assert(has_bucket(buckets, counts[counts.len() - 1]));
        lemma_key_hits_present(buckets, x);
    }
}

proof fn lemma_total_occurrences_empty(buckets: Seq<Bucket>, counts: Seq<usize>)
    requires
        counts.len() == 0,
    ensures
        total_occurrences(buckets, counts) == 0,
    decreases buckets.len(),
{
    if buckets.len() > 0 {
        lemma_total_occurrences_empty(buckets.drop_last(), counts);
        assert(counts.to_multiset().len() == 0);
    }
}

/// Every trial lands in exactly one bar: the bar heights add up to the
/// number of trials.
pub proof fn lemma_histogram_total(buckets: Seq<Bucket>, counts: Seq<usize>)
    requires
        is_histogram_of(buckets, counts),
    ensures
        total_count(buckets) == counts.len(),
{
    lemma_total_count_is_total_occurrences(buckets, counts);
    lemma_total_occurrences_covering(buckets, counts);
}

/// Every trial had no solution, exactly one, or two or more: the three
/// counts add up to the number of trials.
pub proof fn lemma_outcomes_partition_trials(counts: Seq<usize>)
    ensures
        occurrences(counts, 0) + occurrences(counts, 1) + count_at_least(counts, 2) == counts.len(),
    decreases counts.len(),
{
    if counts.len() == 0 {
        assert(counts.to_multiset().len() == 0);
    } else {
        let init = counts.drop_last();
        let x = counts.last();
        assert(counts =~= init.push(x));
        lemma_outcomes_partition_trials(init);
        lemma_occurrences_push(init, x, 0);
        lemma_occurrences_push(init, x, 1);
    }
}

/// A solution count that occurs is one of the counts reported.
proof fn lemma_occurring_value_is_reported(counts: Seq<usize>, v: usize)
    requires
        occurrences(counts, v) > 0,
    ensures
        exists|k: int| 0 <= k < counts.len() && #[trigger] counts[k] == v,
{
    assert(counts.contains(v));
}

/// When no trial reports more than the cap, no bar lies above the cap.
pub proof fn lemma_cap_bounds_histogram(buckets: Seq<Bucket>, counts: Seq<usize>, max_solutions: usize)
    requires
        is_histogram_of(buckets, counts),
        forall|k: int| 0 <= k < counts.len() ==> #[trigger] counts[k] <= max_solutions,
    ensures
        forall|i: int| 0 <= i < buckets.len() ==> #[trigger] buckets[i].solutions <= max_solutions,
{
    assert forall|i: int| 0 <= i < buckets.len() implies #[trigger] buckets[i].solutions
        <= max_solutions by {
        assert(buckets[i].count > 0);
        lemma_occurring_value_is_reported(counts, buckets[i].solutions);
    }
}

proof fn lemma_sorted_same_keys(b1: Seq<Bucket>, b2: Seq<Bucket>)
    requires
        strictly_sorted(b1),
        strictly_sorted(b2),
        forall|i: int| 0 <= i < b1.len() ==> has_bucket(b2, #[trigger] b1[i].solutions),
        forall|i: int| 0 <= i < b2.len() ==> has_bucket(b1, #[trigger] b2[i].solutions),
    ensures
        b1.len() == b2.len(),
        forall|i: int| 0 <= i < b1.len() ==> #[trigger] b1[i].solutions == b2[i].solutions,
    decreases b1.len() + b2.len(),
{
    if b1.len() == 0 {
        if b2.len() > 0 {
            assert(has_bucket(b1, b2[0].solutions));
        }
    } else if b2.len() == 0 {
        assert(has_bucket(b2, b1[0].solutions));
    } else {
        assert(has_bucket(b2, b1[0].solutions));
        assert(has_bucket(b1, b2[0].solutions));
        let q = choose|q: int| 0 <= q < b2.len() && #[trigger] b2[q].solutions == b1[0].solutions;
        let p = choose|p: int| 0 <= p < b1.len() && #[trigger] b1[p].solutions == b2[0].solutions;
        if q > 0 {
            assert(b2[0].solutions < b2[q].solutions);
            if p > 0 {
                assert(b1[0].solutions < b1[p].solutions);
            }
        }
        assert(b1[0].solutions == b2[0].solutions);
        let t1 = b1.drop_first();
        let t2 = b2.drop_first();
        assert(strictly_sorted(t1)) by {
            assert forall|i: int, j: int| 0 <= i < j < t1.len() implies #[trigger] t1[i].solutions
                < #[trigger] t1[j].solutions by {
                assert(t1[i] == b1[i + 1]);
                assert(t1[j] == b1[j + 1]);
            }
        }
        assert(strictly_sorted(t2)) by {
            assert forall|i: int, j: int| 0 <= i < j < t2.len() implies #[trigger] t2[i].solutions
                < #[trigger] t2[j].solutions by {
                assert(t2[i] == b2[i + 1]);
                assert(t2[j] == b2[j + 1]);
            }
        }
        assert forall|i: int| 0 <= i < t1.len() implies has_bucket(t2, #[trigger] t1[i].solutions) by {
            assert(t1[i] == b1[i + 1]);
            assert(b1[0].solutions < b1[i + 1].solutions);
            assert(has_bucket(b2, b1[i + 1].solutions));
            let w = choose|w: int| 0 <= w < b2.len() && #[trigger] b2[w].solutions == b1[i + 1].solutions;
            assert(w != 0);
            assert(t2[w - 1] == b2[w]);
        }
        assert forall|i: int| 0 <= i < t2.len() implies has_bucket(t1, #[trigger] t2[i].solutions) by {
            assert(t2[i] == b2[i + 1]);
            assert(b2[0].solutions < b2[i + 1].solutions);
            assert(has_bucket(b1, b2[i + 1].solutions));
            let w = choose|w: int| 0 <= w < b1.len() && #[trigger] b1[w].solutions == b2[i + 1].solutions;
            assert(w != 0);
            assert(t1[w - 1] == b1[w]);
        }
        lemma_sorted_same_keys(t1, t2);
        assert forall|i: int| 0 <= i < b1.len() implies #[trigger] b1[i].solutions == b2[i].solutions by {
            if i > 0 {
                assert(t1[i - 1] == b1[i]);
                assert(t2[i - 1] == b2[i]);
            }
        }
    }
}

/// The histogram depends only on which counts were reported and how often,
/// not on the order in which the trials finished: two lists of counts that
/// are rearrangements of each other have the same histogram.
pub proof fn lemma_histogram_order_independent(
    b1: Seq<Bucket>,
    c1: Seq<usize>,
    b2: Seq<Bucket>,
    c2: Seq<usize>,
)
    requires
        is_histogram_of(b1, c1),
        is_histogram_of(b2, c2),
        c1.to_multiset() == c2.to_multiset(),
    ensures
        b1 == b2,
{
    assert forall|i: int| 0 <= i < b1.len() implies has_bucket(b2, #[trigger] b1[i].solutions) by {
        assert(b1[i].count > 0);
        lemma_occurring_value_is_reported(c2, b1[i].solutions);
        let k = choose|k: int| 0 <= k < c2.len() && #[trigger] c2[k] == b1[i].solutions;
        assert(has_bucket(b2, c2[k]));
    }
    assert forall|i: int| 0 <= i < b2.len() implies has_bucket(b1, #[trigger] b2[i].solutions) by {
        assert(b2[i].count > 0);
        lemma_occurring_value_is_reported(c1, b2[i].solutions);
        let k = choose|k: int| 0 <= k < c1.len() && #[trigger] c1[k] == b2[i].solutions;
        assert(has_bucket(b1, c1[k]));
    }
    lemma_sorted_same_keys(b1, b2);
    assert forall|i: int| 0 <= i < b1.len() implies #[trigger] b1[i] == b2[i] by {
        assert(b1[i].solutions == b2[i].solutions);
        assert(b1[i].count == occurrences(c1, b1[i].solutions));
        assert(b2[i].count == occurrences(c2, b2[i].solutions));
    }
    assert(b1 =~= b2);
}

/// Distinct trials of one run draw distinct seeds.
pub proof fn lemma_trial_seeds_distinct(master_seed: u64, i: usize, j: usize)
    requires
        i != j,
    ensures
        trial_seed_spec(master_seed, i) != trial_seed_spec(master_seed, j),
{
    let n: int = 0x1_0000_0000_0000_0000;
    let a: int = master_seed as int + i as int;
    let b: int = master_seed as int + j as int;
    assert(0 <= a < 2 * n);
    assert(0 <= b < 2 * n);
    assert(a % n == if a >= n { a - n } else { a });
    assert(b % n == if b >= n { b - n } else { b });
}

} // verus!
