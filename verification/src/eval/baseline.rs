//! Token costs against a recorded baseline: per-fixture costs of a fresh
//! suite report are compared with the recorded ones, and a rise of more
//! than the threshold (in percent of the recorded total) fails.
use vstd::prelude::*;
use crate::strmap::StrMap;
use crate::eval::runner::{EvalResult, SuiteReport};
use crate::text::{concat2, str_eq, join_path, path_join};

verus! {

/// The regression threshold in percent: a total token cost more than
/// this far above the baseline blocks the merge in strict mode.
pub const REGRESSION_THRESHOLD_PCT: u64 = 30;

/// One fixture's committed token cost.
#[derive(Clone, Copy, Debug, PartialEq, Eq, Structural)]
pub struct FixtureBaseline {
    pub token_cost_micros: u64,
}

/// The committed snapshot of expected token costs.
pub struct Baseline {
    /// Sum across all fixtures.
    pub total_token_cost_micros: u64,
    /// Per-fixture detail, keyed by fixture name.
    pub per_fixture: StrMap<FixtureBaseline>,
    /// When the baseline was last refreshed (operator-set, for auditing).
    pub last_refreshed_iso: String,
}

/// How strictly to read the baseline: `Lenient` accepts a first non-zero
/// report against an all-zero baseline as a seed; `Strict` refuses it.
#[derive(Clone, Copy, Debug, PartialEq, Eq, Structural)]
pub enum BaselineMode {
    Lenient,
    Strict,
}

/// What the comparison decides.
#[derive(Clone, Copy, Debug, PartialEq, Eq, Structural)]
pub enum RegressionVerdict {
    Pass,
    Fail,
}

/// A change in percent, held exactly: `100 * change / base`, and zero
/// when `base` is zero.
#[derive(Clone, Copy, Debug, PartialEq, Eq, Structural)]
pub struct PctChange {
    pub change: i128,
    pub base: u64,
}

/// One fixture's row of the regression report.
pub struct FixtureDelta {
    pub name: String,
    pub baseline_micros: u64,
    pub actual_micros: u64,
    pub delta_pct: PctChange,
}

/// The comparison's report.
pub struct RegressionReport {
    pub verdict: RegressionVerdict,
    pub baseline_total: u64,
    pub actual_total: u64,
    /// The change of the total against the baseline total.
    pub delta_pct: PctChange,
    /// Per-fixture rows, the largest increase first.
    pub per_fixture: Vec<FixtureDelta>,
    /// Fixtures in the baseline but not in the report, then fixtures in
    /// the report but not in the baseline.
    pub coverage_drift: Vec<String>,
    /// Set when an all-zero baseline accepted a first non-zero report.
    pub first_baseline_seed_recommended: bool,
}

/// `(actual - baseline) / baseline` in percent, exactly; zero for a zero
/// baseline.
pub open spec fn pct_spec(baseline: u64, actual: u64) -> PctChange {
    if baseline == 0 {
        PctChange { change: 0, base: 0 }
    } else {
        PctChange { change: (actual - baseline) as i128, base: baseline }
    }
}

/// The percentage change from `baseline` to `actual`.
pub fn pct_change(baseline: u64, actual: u64) -> (r: PctChange)
    ensures
        r == pct_spec(baseline, actual),
{
    if baseline == 0 {
        PctChange { change: 0, base: 0 }
    } else {
        PctChange { change: actual as i128 - baseline as i128, base: baseline }
    }
}

/// The divisor of a percentage (one for a zero base, whose change is zero).
pub open spec fn pct_den(p: PctChange) -> int {
    if p.base == 0 { 1 } else { p.base as int }
}

/// Whether `p` is a strictly larger percentage than `q`.
pub open spec fn pct_greater(p: PctChange, q: PctChange) -> bool {
    p.change * pct_den(q) > q.change * pct_den(p)
}

/// The percentages that `pct_spec` produces.
pub open spec fn pct_wf(p: PctChange) -> bool {
    &&& p.base == 0 ==> p.change == 0
    &&& -(u64::MAX as int) <= p.change <= u64::MAX
}

proof fn lemma_pct_spec_wf(b: u64, a: u64)
    ensures
        pct_wf(pct_spec(b, a)),
{
}

proof fn lemma_mul_sign(m: int, d: int)
    by (nonlinear_arith)
    requires
        0 <= m <= u64::MAX,
        1 <= d <= u64::MAX,
    ensures
        (-m) * d == -(m * d),
        0 <= m * d <= (u64::MAX as int) * (u64::MAX as int),
        m * d == 0 <==> m == 0,
{
}

fn magnitude(p: PctChange) -> (r: (bool, u128))
    requires
        pct_wf(p),
    ensures
        r.0 == (p.change < 0),
        r.1 <= u64::MAX,
        r.1 == if p.change < 0 { -p.change } else { p.change as int },
{
    if p.change < 0 {
        (true, (-p.change) as u128)
    } else {
        (false, p.change as u128)
    }
}

fn den(p: PctChange) -> (r: u128)
    ensures
        r == pct_den(p),
        1 <= r <= u64::MAX,
{
    if p.base == 0 { 1 } else { p.base as u128 }
}

/// Whether `p` is a strictly larger percentage than `q`.
pub fn is_pct_greater(p: PctChange, q: PctChange) -> (r: bool)
    requires
        pct_wf(p),
        pct_wf(q),
    ensures
        r == pct_greater(p, q),
{
    let (neg_p, mp) = magnitude(p);
    let (neg_q, mq) = magnitude(q);
    let dp = den(p);
    let dq = den(q);
    proof {
        lemma_mul_sign(mp as int, dq as int);
        lemma_mul_sign(mq as int, dp as int);
        assert((u64::MAX as int) * (u64::MAX as int) <= u128::MAX);
    }
    let lhs = mp * dq;
    let rhs = mq * dp;
    proof {
        if neg_p {
            assert(p.change == -(mp as int));
        } else {
            assert(p.change == mp as int);
        }
        if neg_q {
            assert(q.change == -(mq as int));
        } else {
            assert(q.change == mq as int);
        }
        assert(p.change * pct_den(q) == if neg_p { -(lhs as int) } else { lhs as int });
        assert(q.change * pct_den(p) == if neg_q { -(rhs as int) } else { rhs as int });
    }
    if !neg_p && !neg_q {
        lhs > rhs
    } else if !neg_p && neg_q {
        true
    } else if neg_p && !neg_q {
        false
    } else {
        lhs < rhs
    }
}

/// The cross-multiplied comparison of percentages is a total preorder.
proof fn lemma_cross_trans(a: int, b: int, c: int, da: int, db: int, dc: int)
    by (nonlinear_arith)
    requires
        da > 0,
        db > 0,
        dc > 0,
    ensures
        a * db >= b * da && b * dc >= c * db ==> a * dc >= c * da,
        a * db > b * da && b * dc >= c * db ==> a * dc > c * da,
        a * db >= b * da && b * dc > c * db ==> a * dc > c * da,
{
    if a * db >= b * da && b * dc >= c * db {
        assert(a * db * dc >= b * da * dc);
        assert(b * dc * da >= c * db * da);
    }
    if a * db > b * da && b * dc >= c * db {
        assert(a * db * dc > b * da * dc);
        assert(b * dc * da >= c * db * da);
    }
    if a * db >= b * da && b * dc > c * db {
        assert(a * db * dc >= b * da * dc);
        assert(b * dc * da > c * db * da);
    }
}

/// The per-fixture order: the larger percentage first; equal percentages
/// keep the report's order.
pub open spec fn pct_before(ps: Seq<PctChange>, a: int, b: int) -> bool {
    pct_greater(ps[a], ps[b]) || (!pct_greater(ps[b], ps[a]) && a < b)
}

proof fn lemma_pct_before_total(ps: Seq<PctChange>, a: int, b: int)
    requires
        a != b,
    ensures
        pct_before(ps, a, b) || pct_before(ps, b, a),
        !(pct_before(ps, a, b) && pct_before(ps, b, a)),
{
}

proof fn lemma_pct_before_trans(ps: Seq<PctChange>, a: int, b: int, c: int)
    requires
        pct_before(ps, a, b),
        pct_before(ps, b, c),
    ensures
        pct_before(ps, a, c),
{
    lemma_cross_trans(ps[a].change as int, ps[b].change as int, ps[c].change as int, pct_den(ps[a]), pct_den(ps[b]), pct_den(ps[c]));
}

/// Whether `order` lists each of the positions `0..n` once, in
/// `pct_before` order.
pub open spec fn pct_sorted(ps: Seq<PctChange>, order: Seq<usize>, n: int) -> bool {
    &&& order.len() == n
    &&& forall|k: int| 0 <= k < n ==> #[trigger] order[k] < n
    &&& forall|k: int, l: int| 0 <= k < l < n ==> #[trigger] order[k] != #[trigger] order[l]
    &&& forall|k: int, l: int| 0 <= k < l < n ==> pct_before(ps, #[trigger] order[k] as int, #[trigger] order[l] as int)
}

fn pct_order(ps: &Vec<PctChange>) -> (r: Vec<usize>)
    requires
        forall|i: int| 0 <= i < ps@.len() ==> pct_wf(#[trigger] ps@[i]),
    ensures
        pct_sorted(ps@, r@, ps@.len() as int),
{
    let n = ps.len();
    let mut order: Vec<usize> = Vec::new();
    let mut i: usize = 0;
    while i < n
        invariant
            n == ps@.len(),
            i <= n,
            forall|j: int| 0 <= j < ps@.len() ==> pct_wf(#[trigger] ps@[j]),
            pct_sorted(ps@, order@, i as int),
        decreases n - i,
    {
        let mut p: usize = 0;
        while p < order.len() && !(is_pct_greater(ps[i], ps[order[p]]) || (!is_pct_greater(ps[order[p]], ps[i]) && i < order[p]))
            invariant
                n == ps@.len(),
                i < n,
                p <= order@.len(),
                forall|j: int| 0 <= j < ps@.len() ==> pct_wf(#[trigger] ps@[j]),
                pct_sorted(ps@, order@, i as int),
                forall|q: int| 0 <= q < p ==> pct_before(ps@, #[trigger] order@[q] as int, i as int),
            decreases order@.len() - p,
        {
            proof {
                lemma_pct_before_total(ps@, i as int, order@[p as int] as int);
            }
            p = p + 1;
        }
        let ghost old_order = order@;
        order.insert(p, i);
        proof {
            let o = order@;
            assert(o == old_order.insert(p as int, i));
            assert forall|k: int| 0 <= k < i + 1 implies #[trigger] o[k] < i + 1 by {
                if k < p {
                    assert(o[k] == old_order[k]);
                } else if k > p {
                    assert(o[k] == old_order[k - 1]);
                }
            }
            assert forall|k: int, l: int| 0 <= k < l < i + 1 implies #[trigger] o[k] != #[trigger] o[l] by {
                if k < p && l < p {
                    assert(o[k] == old_order[k] && o[l] == old_order[l]);
                } else if k < p && l == p {
                    assert(o[k] == old_order[k]);
                } else if k < p && l > p {
                    assert(o[k] == old_order[k] && o[l] == old_order[l - 1]);
                } else if k == p {
                    assert(o[l] == old_order[l - 1]);
                } else {
                    assert(o[k] == old_order[k - 1] && o[l] == old_order[l - 1]);
                }
            }
            assert forall|k: int, l: int| 0 <= k < l < i + 1 implies pct_before(ps@, #[trigger] o[k] as int, #[trigger] o[l] as int) by {
                if k < p && l < p {
                    assert(o[k] == old_order[k] && o[l] == old_order[l]);
                } else if k < p && l == p {
                    assert(o[k] == old_order[k]);
                } else if k < p && l > p {
                    assert(o[k] == old_order[k] && o[l] == old_order[l - 1]);
                    lemma_pct_before_total(ps@, i as int, old_order[p as int] as int);
                    assert(pct_before(ps@, i as int, old_order[l - 1] as int)) by {
                        if l - 1 > p {
                            assert(pct_before(ps@, old_order[p as int] as int, old_order[l - 1] as int));
                            lemma_pct_before_trans(ps@, i as int, old_order[p as int] as int, old_order[l - 1] as int);
                        }
                    }
                    lemma_pct_before_trans(ps@, old_order[k] as int, i as int, old_order[l - 1] as int);
                } else if k == p {
                    assert(o[l] == old_order[l - 1]);
                    lemma_pct_before_total(ps@, i as int, old_order[p as int] as int);
                    if l - 1 > p {
                        assert(pct_before(ps@, old_order[p as int] as int, old_order[l - 1] as int));
                        lemma_pct_before_trans(ps@, i as int, old_order[p as int] as int, old_order[l - 1] as int);
                    }
                } else {
                    assert(o[k] == old_order[k - 1] && o[l] == old_order[l - 1]);
                }
            }
        }
        i = i + 1;
    }
    order
}

/// The committed cost of the fixture named `name`; zero when the baseline
/// does not list it.
pub open spec fn baseline_cost(baseline: Baseline, name: Seq<char>) -> u64 {
    match baseline.per_fixture.spec_get(name) {
        Some(fb) => fb.token_cost_micros,
        None => 0,
    }
}

/// The percentage change of each fixture of the report, in report order.
pub open spec fn report_pcts(results: Seq<EvalResult>, baseline: Baseline) -> Seq<PctChange> {
    Seq::new(
        results.len(),
        |i: int| pct_spec(baseline_cost(baseline, results[i].name@), results[i].token_cost_micros),
    )
}

/// The row of a fixture: its name, committed and actual cost, and change.
pub open spec fn delta_row(d: FixtureDelta) -> (Seq<char>, u64, u64, PctChange) {
    (d.name@, d.baseline_micros, d.actual_micros, d.delta_pct)
}

/// The row that the report's `i`-th result gives.
pub open spec fn expected_row(results: Seq<EvalResult>, baseline: Baseline, i: int) -> (Seq<char>, u64, u64, PctChange) {
    let c = baseline_cost(baseline, results[i].name@);
    (results[i].name@, c, results[i].token_cost_micros, pct_spec(c, results[i].token_cost_micros))
}

/// Whether `rows` are the report's rows listed through `order` in
/// `pct_before` order.
pub open spec fn rows_sorted(results: Seq<EvalResult>, baseline: Baseline, rows: Seq<FixtureDelta>, order: Seq<usize>) -> bool {
    &&& rows.len() == results.len()
    &&& pct_sorted(report_pcts(results, baseline), order, results.len() as int)
    &&& forall|k: int| 0 <= k < rows.len() ==> delta_row(#[trigger] rows[k]) == expected_row(results, baseline, order[k] as int)
}

/// The names of the results, in order.
pub open spec fn result_names(results: Seq<EvalResult>) -> Seq<Seq<char>> {
    Seq::new(results.len(), |i: int| results[i].name@)
}

/// The keys of the baseline, in key order.
pub open spec fn baseline_keys(baseline: Baseline) -> Seq<Seq<char>> {
    Seq::new(baseline.per_fixture@.len(), |i: int| baseline.per_fixture@[i].0)
}

/// `baseline-only: <key>` for each key that no result is named.
pub open spec fn baseline_only(keys: Seq<Seq<char>>, names: Seq<Seq<char>>) -> Seq<Seq<char>>
    decreases keys.len(),
{
    if keys.len() == 0 {
        Seq::empty()
    } else {
        let rest = baseline_only(keys.drop_last(), names);
        if names.contains(keys.last()) {
            rest
        } else {
            rest.push("baseline-only: "@ + keys.last())
        }
    }
}

/// `report-only: <name>` for each result name that the baseline lacks.
pub open spec fn report_only(names: Seq<Seq<char>>, baseline: Baseline) -> Seq<Seq<char>>
    decreases names.len(),
{
    if names.len() == 0 {
        Seq::empty()
    } else {
        let rest = report_only(names.drop_last(), baseline);
        if baseline.per_fixture.spec_has(names.last()) {
            rest
        } else {
            rest.push("report-only: "@ + names.last())
        }
    }
}

/// The verdict and whether to recommend seeding the baseline:
/// both totals zero pass; a zero baseline against a non-zero total passes
/// with a seed recommendation in lenient mode and fails in strict mode;
/// otherwise an increase of more than the threshold fails.
pub open spec fn verdict_spec(baseline: u64, actual: u64, mode: BaselineMode) -> (RegressionVerdict, bool) {
    if baseline == 0 && actual == 0 {
        (RegressionVerdict::Pass, false)
    } else if baseline == 0 {
        match mode {
            BaselineMode::Lenient => (RegressionVerdict::Pass, true),
            BaselineMode::Strict => (RegressionVerdict::Fail, false),
        }
    } else if (actual - baseline) * 100 > REGRESSION_THRESHOLD_PCT * baseline {
        (RegressionVerdict::Fail, false)
    } else {
        (RegressionVerdict::Pass, false)
    }
}

/// Decides the verdict and the seed advisory.
pub fn decide_verdict(baseline: u64, actual: u64, mode: BaselineMode) -> (r: (RegressionVerdict, bool))
    ensures
        r == verdict_spec(baseline, actual, mode),
{
    if baseline == 0 && actual == 0 {
        return (RegressionVerdict::Pass, false);
    }
    if baseline == 0 {
        return match mode {
            BaselineMode::Lenient => (RegressionVerdict::Pass, true),
            BaselineMode::Strict => (RegressionVerdict::Fail, false),
        };
    }
    let exceeds = if actual > baseline {
        let rise: u128 = (actual - baseline) as u128;
        let base: u128 = baseline as u128;
        let limit: u128 = REGRESSION_THRESHOLD_PCT as u128;
        assert(rise * 100 <= u64::MAX * 100);
        assert(base * limit <= u64::MAX * 30);
        rise * 100 > base * limit
    } else {
        false
    };
    if exceeds {
        (RegressionVerdict::Fail, false)
    } else {
        (RegressionVerdict::Pass, false)
    }
}

fn name_in_results(results: &Vec<EvalResult>, k: &str) -> (r: bool)
    ensures
        r == result_names(results@).contains(k@),
{
    let mut i: usize = 0;
    while i < results.len()
        invariant
            i <= results@.len(),
            forall|j: int| 0 <= j < i ==> (#[trigger] results@[j]).name@ != k@,
        decreases results@.len() - i,
    {
        if str_eq(results[i].name.as_str(), k) {
            assert(result_names(results@)[i as int] == k@);
            return true;
        }
        i = i + 1;
    }
    assert forall|j: int| 0 <= j < result_names(results@).len() implies #[trigger] result_names(results@)[j] != k@ by {
        assert(result_names(results@)[j] == results@[j].name@);
    }
    false
}

fn coverage_drift(report: &SuiteReport, baseline: &Baseline) -> (r: Vec<String>)
    ensures
        r@.map_values(|s: String| s@) == baseline_only(baseline_keys(*baseline), result_names(report.results@))
            + report_only(result_names(report.results@), *baseline),
{
    let names = Ghost(result_names(report.results@));
    let keys = Ghost(baseline_keys(*baseline));
    let mut out: Vec<String> = Vec::new();
    let n = baseline.per_fixture.len();
    let mut i: usize = 0;
    while i < n
        invariant
            n == baseline.per_fixture@.len(),
            keys@ == baseline_keys(*baseline),
            names@ == result_names(report.results@),
            i <= n,
            out@.map_values(|s: String| s@) == baseline_only(keys@.take(i as int), names@),
        decreases n - i,
    {
        let k = baseline.per_fixture.key_at(i);
        proof {
            assert(keys@.take(i + 1).drop_last() =~= keys@.take(i as int));
            assert(keys@.take(i + 1).last() == k@);
        }
        if !name_in_results(&report.results, k.as_str()) {
            let ghost before = out@;
            out.push(concat2("baseline-only: ", k.as_str()));
            proof {
                assert(out@.map_values(|s: String| s@) =~= before.map_values(|s: String| s@).push("baseline-only: "@ + k@));
            }
        }
        i = i + 1;
    }
    proof {
        assert(keys@.take(n as int) =~= keys@);
    }
    let ghost head = out@.map_values(|s: String| s@);
    let mut j: usize = 0;
    while j < report.results.len()
        invariant
            names@ == result_names(report.results@),
            j <= report.results@.len(),
            out@.map_values(|s: String| s@) == head + report_only(names@.take(j as int), *baseline),
        decreases report.results@.len() - j,
    {
        let name = &report.results[j].name;
        proof {
            assert(names@.take(j + 1).drop_last() =~= names@.take(j as int));
            assert(names@.take(j + 1).last() == name@);
        }
        if !baseline.per_fixture.contains_key(name.as_str()) {
            let ghost before = out@;
            out.push(concat2("report-only: ", name.as_str()));
            proof {
                assert(out@.map_values(|s: String| s@) =~= before.map_values(|s: String| s@).push("report-only: "@ + name@));
                assert(head + report_only(names@.take(j + 1), *baseline) =~= (head + report_only(names@.take(j as int), *baseline)).push("report-only: "@ + name@));
            }
        } else {
            proof {
                assert(report_only(names@.take(j + 1), *baseline) == report_only(names@.take(j as int), *baseline));
            }
        }
        j = j + 1;
    }
    proof {
        assert(names@.take(report.results@.len() as int) =~= names@);
    }
    out
}

/// Compares a fresh report with the committed baseline: the verdict and
/// seed advisory on the totals, the change of the totals, one row per
/// result (the largest increase first; a fixture absent from the baseline
/// counts as zero), and the coverage drift between the two.
pub fn compare_against_baseline(report: &SuiteReport, baseline: &Baseline, mode: BaselineMode) -> (r: RegressionReport)
    ensures
        r.actual_total == report.total_token_cost_micros,
        r.baseline_total == baseline.total_token_cost_micros,
        r.delta_pct == pct_spec(baseline.total_token_cost_micros, report.total_token_cost_micros),
        (r.verdict, r.first_baseline_seed_recommended) == verdict_spec(
            baseline.total_token_cost_micros,
            report.total_token_cost_micros,
            mode,
        ),
        exists|order: Seq<usize>| #[trigger] rows_sorted(report.results@, *baseline, r.per_fixture@, order),
        r.coverage_drift@.map_values(|s: String| s@) == baseline_only(baseline_keys(*baseline), result_names(report.results@))
            + report_only(result_names(report.results@), *baseline),
{
    let actual_total = report.total_token_cost_micros;
    let baseline_total = baseline.total_token_cost_micros;
    let mut rows: Vec<FixtureDelta> = Vec::new();
    let mut pcts: Vec<PctChange> = Vec::new();
    let mut i: usize = 0;
    while i < report.results.len()
        invariant
            i <= report.results@.len(),
            rows@.len() == i,
            pcts@.len() == i,
            forall|k: int| 0 <= k < i ==> delta_row(#[trigger] rows@[k]) == expected_row(report.results@, *baseline, k),
            forall|k: int| 0 <= k < i ==> #[trigger] pcts@[k] == report_pcts(report.results@, *baseline)[k],
            forall|k: int| 0 <= k < i ==> pct_wf(#[trigger] pcts@[k]),
        decreases report.results@.len() - i,
    {
        let r = &report.results[i];
        let baseline_micros = match baseline.per_fixture.get(r.name.as_str()) {
            Some(fb) => fb.token_cost_micros,
            None => 0,
        };
        let p = pct_change(baseline_micros, r.token_cost_micros);
        proof {
            lemma_pct_spec_wf(baseline_micros, r.token_cost_micros);
        }
        rows.push(FixtureDelta { name: r.name.clone(), baseline_micros, actual_micros: r.token_cost_micros, delta_pct: p });
        pcts.push(p);
        i = i + 1;
    }
    proof {
        assert(pcts@ =~= report_pcts(report.results@, *baseline));
    }
    let order = pct_order(&pcts);
    let mut per_fixture: Vec<FixtureDelta> = Vec::new();
    let mut j: usize = 0;
    while j < rows.len()
        invariant
            rows@.len() == report.results@.len(),
            pct_sorted(report_pcts(report.results@, *baseline), order@, report.results@.len() as int),
            forall|k: int| 0 <= k < rows@.len() ==> delta_row(#[trigger] rows@[k]) == expected_row(report.results@, *baseline, k),
            j <= rows@.len(),
            per_fixture@.len() == j,
            forall|k: int| 0 <= k < j ==> delta_row(#[trigger] per_fixture@[k]) == expected_row(report.results@, *baseline, order@[k] as int),
        decreases rows@.len() - j,
    {
        let src = &rows[order[j]];
        assert(delta_row(*src) == expected_row(report.results@, *baseline, order@[j as int] as int));
        per_fixture.push(
            FixtureDelta {
                name: src.name.clone(),
                baseline_micros: src.baseline_micros,
                actual_micros: src.actual_micros,
                delta_pct: src.delta_pct,
            },
        );
        j = j + 1;
    }
    assert(rows_sorted(report.results@, *baseline, per_fixture@, order@));
    let coverage = coverage_drift(report, baseline);
    let delta_pct = pct_change(baseline_total, actual_total);
    let (verdict, seed) = decide_verdict(baseline_total, actual_total, mode);
    let ghost rows_seen = per_fixture@;
    let r = RegressionReport {
        verdict,
        baseline_total,
        actual_total,
        delta_pct,
        per_fixture,
        coverage_drift: coverage,
        first_baseline_seed_recommended: seed,
    };
    assert(rows_sorted(report.results@, *baseline, r.per_fixture@, order@)) by {
        assert(r.per_fixture@ == rows_seen);
    }
    r
}

/// The baseline entry that the last result named `k` gives, if any.
pub open spec fn last_entry(results: Seq<EvalResult>, k: Seq<char>) -> Option<FixtureBaseline>
    decreases results.len(),
{
    if results.len() == 0 {
        None
    } else if results.last().name@ == k {
        Some(FixtureBaseline { token_cost_micros: results.last().token_cost_micros })
    } else {
        last_entry(results.drop_last(), k)
    }
}

impl Baseline {
    /// A baseline taken from a report: its total, and for each fixture
    /// name the cost of the (last) result of that name.
    pub fn from_report(report: &SuiteReport, last_refreshed_iso: &str) -> (r: Baseline)
        ensures
            r.total_token_cost_micros == report.total_token_cost_micros,
            forall|k: Seq<char>| #[trigger] r.per_fixture.spec_get(k) == last_entry(report.results@, k),
            r.last_refreshed_iso@ == last_refreshed_iso@,
    {
        let mut per_fixture: StrMap<FixtureBaseline> = StrMap::new();
        let mut i: usize = 0;
        while i < report.results.len()
            invariant
                i <= report.results@.len(),
                forall|k: Seq<char>| #[trigger] per_fixture.spec_get(k) == last_entry(report.results@.take(i as int), k),
            decreases report.results@.len() - i,
        {
            let r = &report.results[i];
            let ghost before = per_fixture;
            per_fixture.insert(r.name.clone(), FixtureBaseline { token_cost_micros: r.token_cost_micros });
            proof {
                let t = report.results@.take(i + 1);
                assert(t.drop_last() =~= report.results@.take(i as int));
                assert(t.last() == *r);
                assert forall|k: Seq<char>| #[trigger] per_fixture.spec_get(k) == last_entry(t, k) by {
                    assert(per_fixture.spec_get(k) == if k == r.name@ {
                        Some(FixtureBaseline { token_cost_micros: r.token_cost_micros })
                    } else {
                        before.spec_get(k)
                    });
                }
            }
            i = i + 1;
        }
        proof {
            assert(report.results@.take(report.results@.len() as int) =~= report.results@);
        }
        Baseline {
            total_token_cost_micros: report.total_token_cost_micros,
            per_fixture,
            last_refreshed_iso: last_refreshed_iso.to_owned(),
        }
    }
}

/// The canonical baseline file of a suite: `eval-baseline.json` under the
/// suite root.
pub fn default_baseline_path(suite_root: &str) -> (r: String)
    ensures
        r@ == path_join(suite_root@, "eval-baseline.json"@),
{
    join_path(suite_root, "eval-baseline.json")
}

proof fn lemma_last_entry_named(results: Seq<EvalResult>, k: Seq<char>)
    ensures
        (last_entry(results, k) is Some) == result_names(results).contains(k),
    decreases results.len(),
{
    if results.len() > 0 {
        let p = results.drop_last();
        lemma_last_entry_named(p, k);
        assert(result_names(results) =~= result_names(p).push(results.last().name@));
        if result_names(p).contains(k) {
            let i = choose|i: int| 0 <= i < result_names(p).len() && result_names(p)[i] == k;
            assert(result_names(results)[i] == k);
        }
        if results.last().name@ == k {
            assert(result_names(results)[results.len() - 1] == k);
        }
        if result_names(results).contains(k) {
            let i = choose|i: int| 0 <= i < result_names(results).len() && result_names(results)[i] == k;
            if i < results.len() - 1 {
                assert(result_names(p)[i] == k);
            }
        }
    } else {
        assert(!result_names(results).contains(k));
    }
}

proof fn lemma_baseline_only_empty(keys: Seq<Seq<char>>, names: Seq<Seq<char>>)
    requires
        forall|i: int| 0 <= i < keys.len() ==> names.contains(#[trigger] keys[i]),
    ensures
        baseline_only(keys, names) == Seq::<Seq<char>>::empty(),
    decreases keys.len(),
{
    if keys.len() > 0 {
        let p = keys.drop_last();
        assert forall|i: int| 0 <= i < p.len() implies names.contains(#[trigger] p[i]) by {
            assert(p[i] == keys[i]);
        }
        lemma_baseline_only_empty(p, names);
        assert(names.contains(keys[keys.len() - 1]));
    }
}

proof fn lemma_report_only_empty(names: Seq<Seq<char>>, baseline: Baseline)
    requires
        forall|i: int| 0 <= i < names.len() ==> baseline.per_fixture.spec_has(#[trigger] names[i]),
    ensures
        report_only(names, baseline) == Seq::<Seq<char>>::empty(),
    decreases names.len(),
{
    if names.len() > 0 {
        let p = names.drop_last();
        assert forall|i: int| 0 <= i < p.len() implies baseline.per_fixture.spec_has(#[trigger] p[i]) by {
            assert(p[i] == names[i]);
        }
        lemma_report_only_empty(p, baseline);
        assert(baseline.per_fixture.spec_has(names[names.len() - 1]));
    }
}

/// A baseline taken from a report (same total, each fixture's entry the
/// last result of that name) passes against that report in
/// either mode, recommends no seed, and shows no coverage drift.
pub proof fn law_baseline_from_report_passes(report: SuiteReport, baseline: Baseline, mode: BaselineMode)
    requires
        baseline.total_token_cost_micros == report.total_token_cost_micros,
        forall|k: Seq<char>| #[trigger] baseline.per_fixture.spec_get(k) == last_entry(report.results@, k),
    ensures
        verdict_spec(baseline.total_token_cost_micros, report.total_token_cost_micros, mode) == (
        RegressionVerdict::Pass,
        false,
        ),
        baseline_only(baseline_keys(baseline), result_names(report.results@)) == Seq::<Seq<char>>::empty(),
        report_only(result_names(report.results@), baseline) == Seq::<Seq<char>>::empty(),
{
    let keys = baseline_keys(baseline);
    let names = result_names(report.results@);
    assert forall|i: int| 0 <= i < keys.len() implies names.contains(#[trigger] keys[i]) by {
        let k = keys[i];
        assert(baseline.per_fixture@[i].0 == k);
        assert(baseline.per_fixture.spec_has(k));
        crate::strmap::lemma_has_get(baseline.per_fixture, k);
        lemma_last_entry_named(report.results@, k);
    }
    lemma_baseline_only_empty(keys, names);
    assert forall|i: int| 0 <= i < names.len() implies baseline.per_fixture.spec_has(#[trigger] names[i]) by {
        let k = names[i];
        assert(names.contains(k));
        lemma_last_entry_named(report.results@, k);
        crate::strmap::lemma_has_get(baseline.per_fixture, k);
    }
    lemma_report_only_empty(names, baseline);
}

} // verus!
