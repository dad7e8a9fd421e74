//! Per-fixture results and the suite report they add up to.
use vstd::prelude::*;
use crate::generator::Generator;

verus! {

/// The outcome of one golden run.
pub struct EvalResult {
    pub name: String,
    pub passed: bool,
    pub token_cost_micros: u64,
    pub wall_clock_ms: u32,
    /// The unified diff of the mismatches; `None` when `passed`.
    pub diff: Option<String>,
}

/// The aggregate over a suite.
pub struct SuiteReport {
    pub results: Vec<EvalResult>,
    pub total: usize,
    pub passed: usize,
    pub failed: usize,
    pub total_token_cost_micros: u64,
}

/// How many of `rs` passed.
pub open spec fn count_passed(rs: Seq<EvalResult>) -> nat
    decreases rs.len(),
{
    if rs.len() == 0 {
        0
    } else {
        count_passed(rs.drop_last()) + if rs.last().passed { 1nat } else { 0nat }
    }
}

/// The sum of the token costs of `rs`.
pub open spec fn sum_costs(rs: Seq<EvalResult>) -> nat
    decreases rs.len(),
{
    if rs.len() == 0 {
        0
    } else {
        sum_costs(rs.drop_last()) + rs.last().token_cost_micros as nat
    }
}

proof fn lemma_sum_costs_prefix(rs: Seq<EvalResult>, i: int)
    requires
        0 <= i <= rs.len(),
    ensures
        sum_costs(rs.take(i)) <= sum_costs(rs),
    decreases rs.len() - i,
{
    if i < rs.len() {
        lemma_sum_costs_prefix(rs, i + 1);
        assert(rs.take(i + 1).drop_last() =~= rs.take(i));
    } else {
        assert(rs.take(i) =~= rs);
    }
}

proof fn lemma_count_passed_len(rs: Seq<EvalResult>)
    ensures
        count_passed(rs) <= rs.len(),
    decreases rs.len(),
{
    if rs.len() > 0 {
        lemma_count_passed_len(rs.drop_last());
    }
}

impl SuiteReport {
    /// Whether the suite as a whole passed: no fixture failed.
    pub fn all_passed(&self) -> (r: bool)
        ensures
            r == (self.failed == 0),
    {
        self.failed == 0
    }

    /// The report over `results`: how many there are, how many passed and
    /// failed, and the summed token cost.
    pub fn from_results(results: Vec<EvalResult>) -> (r: SuiteReport)
        requires
            sum_costs(results@) <= u64::MAX,
        ensures
            r.results@ == results@,
            r.total == results@.len(),
            r.passed == count_passed(results@),
            r.failed == results@.len() - count_passed(results@),
            r.total_token_cost_micros == sum_costs(results@),
    {
        let mut passed: usize = 0;
        let mut cost: u64 = 0;
        let mut i: usize = 0;
        while i < results.len()
            invariant
                i <= results@.len(),
                sum_costs(results@) <= u64::MAX,
                passed == count_passed(results@.take(i as int)),
                cost == sum_costs(results@.take(i as int)),
            decreases results@.len() - i,
        {
            proof {
                assert(results@.take(i + 1).drop_last() =~= results@.take(i as int));
                lemma_sum_costs_prefix(results@, i + 1);
                lemma_count_passed_len(results@.take(i as int));
            }
            if results[i].passed {
                passed = passed + 1;
            }
            cost = cost + results[i].token_cost_micros;
            i = i + 1;
        }
        proof {
            assert(results@.take(i as int) =~= results@);
            lemma_count_passed_len(results@);
        }
        let total = results.len();
        SuiteReport { results, total, passed, failed: total - passed, total_token_cost_micros: cost }
    }
}

/// A run's elapsed milliseconds as stored in a result: saturated at
/// `u32::MAX`.
pub fn wall_clock_ms(elapsed_ms: u128) -> (r: u32)
    ensures
        r == if elapsed_ms <= u32::MAX { elapsed_ms } else { u32::MAX as u128 },
{
    if elapsed_ms <= u32::MAX as u128 {
        elapsed_ms as u32
    } else {
        u32::MAX
    }
}

/// The runner: one Generator shared by every fixture of a suite.
pub struct EvalRunner {
    pub generator: Generator,
}

impl EvalRunner {
    /// A runner over the hand-curated templates.
    pub fn new() -> (r: Self)
        ensures
            r.generator.registry.derived_count() == 0,
    {
        EvalRunner { generator: Generator::new() }
    }

    /// The result of running the fixture `name`: whether the emitted files
    /// matched, with the diff, and the elapsed time. No LLM is involved in
    /// this pipeline, so the token cost is zero.
    pub fn result_of(name: String, comparison: crate::eval::scorer::ComparisonResult, elapsed_ms: u128) -> (r: EvalResult)
        ensures
            r.name == name,
            r.passed == comparison.passed,
            r.diff == comparison.diff,
            r.token_cost_micros == 0,
            r.wall_clock_ms == if elapsed_ms <= u32::MAX { elapsed_ms } else { u32::MAX as u128 },
    {
        EvalResult {
            name,
            passed: comparison.passed,
            token_cost_micros: 0,
            wall_clock_ms: wall_clock_ms(elapsed_ms),
            diff: comparison.diff,
        }
    }
}

} // verus!
