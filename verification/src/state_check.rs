//! The post-apply gate: the resources the plan expects are compared with
//! the resources Terraform's state holds, and every drift is reported.
use vstd::prelude::*;
use crate::mapper::{MappedResource, MappingPlan};
use crate::strmap::{StrMap, sorted_keys, lookup, has_key, lemma_lookup_at};
use crate::text::{owned, str_eq, starts_with, seq_starts_with, str_lt, seq_lt, chars_of, string_from_chars, lemma_seq_lt_irreflexive, lemma_seq_lt_asymmetric, lemma_seq_lt_total, lemma_seq_lt_transitive};

verus! {

/// One resource of `terraform show -json` state.
#[derive(Debug)]
pub struct StateResource {
    /// e.g. "aws_vpc.main" or "module.foo.aws_vpc.main".
    pub address: String,
    /// "managed" or "data".
    pub mode: String,
    /// e.g. "aws_vpc".
    pub resource_type: String,
    pub name: String,
    /// e.g. "registry.terraform.io/hashicorp/aws".
    pub provider_name: String,
}

/// A module nested in the state, with its own nested modules.
#[derive(Debug)]
pub struct ChildModule {
    pub address: Option<String>,
    pub resources: Vec<StateResource>,
    pub child_modules: Vec<ChildModule>,
}

/// The root module of the state.
#[derive(Debug)]
pub struct RootModule {
    pub resources: Vec<StateResource>,
    pub child_modules: Vec<ChildModule>,
}

/// The `values` block of the state.
#[derive(Debug)]
pub struct ValuesBlock {
    pub root_module: RootModule,
}

/// The parts of `terraform show -json` output the Verifier reads.
#[derive(Debug)]
pub struct TerraformState {
    pub format_version: String,
    /// Absent right after `terraform init`, before any apply.
    pub values: Option<ValuesBlock>,
}

/// The mode a state resource has when its JSON names none.
pub fn default_mode() -> (r: String)
    ensures
        r@ == "managed"@,
{
    owned("managed")
}

/// The resources of a child module, then those of its nested modules in
/// order, depth first.
pub open spec fn child_flat(c: ChildModule) -> Seq<StateResource>
    decreases c, 1int,
{
    c.resources@ + children_flat(c.child_modules@, 0)
}

/// The flattened resources of `cs[from..]`, in order.
pub open spec fn children_flat(cs: Seq<ChildModule>, from: int) -> Seq<StateResource>
    decreases cs, 0int, cs.len() - from,
{
    if from < 0 || from >= cs.len() {
        Seq::empty()
    } else {
        child_flat(cs[from]) + children_flat(cs, from + 1)
    }
}

/// Every resource of the state: the root module's, then its child modules'
/// depth first; none when the state has no values.
pub open spec fn state_flat(s: TerraformState) -> Seq<StateResource> {
    match s.values {
        None => Seq::empty(),
        Some(v) => v.root_module.resources@ + children_flat(v.root_module.child_modules@, 0),
    }
}

/// The resources behind a list of references.
pub open spec fn deref_all(v: Seq<&StateResource>) -> Seq<StateResource> {
    v.map_values(|r: &StateResource| *r)
}

fn push_resources<'a>(rs: &'a Vec<StateResource>, out: &mut Vec<&'a StateResource>)
    ensures
        deref_all(final(out)@) == deref_all(old(out)@) + rs@,
{
    let ghost start = deref_all(out@);
    let mut i: usize = 0;
    while i < rs.len()
        invariant
            i <= rs@.len(),
            deref_all(out@) == start + rs@.take(i as int),
        decreases rs@.len() - i,
    {
        let ghost before = out@;
        out.push(&rs[i]);
        proof {
            assert(deref_all(out@) =~= deref_all(before).push(rs@[i as int]));
            assert(rs@.take(i + 1) =~= rs@.take(i as int).push(rs@[i as int]));
            assert(deref_all(out@) =~= start + rs@.take(i + 1));
        }
        i = i + 1;
    }
    proof {
        assert(rs@.take(rs@.len() as int) =~= rs@);
    }
}

/// Appends the resources of `child` and of its nested modules, depth
/// first.
pub fn flatten_child<'a>(child: &'a ChildModule, out: &mut Vec<&'a StateResource>)
    ensures
        deref_all(final(out)@) == deref_all(old(out)@) + child_flat(*child),
    decreases child,
{
    push_resources(&child.resources, out);
    let ghost mid = deref_all(out@);
    let ghost cs = child.child_modules@;
    let mut i: usize = 0;
    while i < child.child_modules.len()
        invariant
            cs == child.child_modules@,
            i <= cs.len(),
            deref_all(out@) + children_flat(cs, i as int) == mid + children_flat(cs, 0),
        decreases cs.len() - i,
    {
        proof {
            assert(decreases_to!(*child => cs[i as int]));
        }
        flatten_child(&child.child_modules[i], out);
        proof {
            assert(children_flat(cs, i as int) == child_flat(cs[i as int]) + children_flat(cs, i + 1));
            assert(deref_all(out@) + children_flat(cs, i + 1) =~= mid + children_flat(cs, 0));
        }
        i = i + 1;
    }
    proof {
        assert(deref_all(out@) =~= mid + children_flat(cs, 0));
    }
}

/// Appends the resources of the root module and of its nested modules.
pub fn flatten_root<'a>(root: &'a RootModule, out: &mut Vec<&'a StateResource>)
    ensures
        deref_all(final(out)@) == deref_all(old(out)@) + root.resources@ + children_flat(root.child_modules@, 0),
{
    push_resources(&root.resources, out);
    let ghost mid = deref_all(out@);
    let ghost cs = root.child_modules@;
    let mut i: usize = 0;
    while i < root.child_modules.len()
        invariant
            cs == root.child_modules@,
            i <= cs.len(),
            deref_all(out@) + children_flat(cs, i as int) == mid + children_flat(cs, 0),
        decreases cs.len() - i,
    {
        flatten_child(&root.child_modules[i], out);
        proof {
            assert(children_flat(cs, i as int) == child_flat(cs[i as int]) + children_flat(cs, i + 1));
            assert(deref_all(out@) + children_flat(cs, i + 1) =~= mid + children_flat(cs, 0));
        }
        i = i + 1;
    }
    proof {
        assert(deref_all(out@) =~= mid + children_flat(cs, 0));
    }
}

/// Every resource of the state, root first, then child modules depth
/// first.
pub fn flatten_resources(state: &TerraformState) -> (r: Vec<&StateResource>)
    ensures
        deref_all(r@) == state_flat(*state),
{
    let mut out: Vec<&StateResource> = Vec::new();
    match &state.values {
        None => {
            assert(deref_all(out@) =~= Seq::<StateResource>::empty());
            out
        },
        Some(values) => {
            proof {
                assert(deref_all(out@) =~= Seq::<StateResource>::empty());
            }
            flatten_root(&values.root_module, &mut out);
            proof {
                assert(deref_all(out@) =~= state_flat(*state));
            }
            out
        },
    }
}

/// The part of `s` after its last '/', or all of `s` when it has none.
pub open spec fn after_last_slash(s: Seq<char>) -> Seq<char>
    decreases s.len(),
{
    if s.len() == 0 {
        s
    } else if s.last() == '/' {
        Seq::empty()
    } else {
        after_last_slash(s.drop_last()).push(s.last())
    }
}

/// The canonical provider name in terraform's `provider_name` form: the
/// last path segment ("registry.terraform.io/hashicorp/aws" gives "aws").
pub fn canonical_provider_name(provider_uri: &str) -> (r: String)
    ensures
        r@ == after_last_slash(provider_uri@),
{
    let cs = chars_of(provider_uri);
    let n = cs.len();
    let mut start: usize = n;
    proof {
        assert(cs@.take(n as int) =~= cs@);
        assert(cs@.subrange(n as int, n as int) =~= Seq::<char>::empty());
        assert(after_last_slash(cs@) =~= after_last_slash(cs@.take(n as int)) + cs@.subrange(n as int, n as int));
    }
    while start > 0 && cs[start - 1] != '/'
        invariant
            start <= n,
            n == cs@.len(),
            cs@ == provider_uri@,
            after_last_slash(cs@) == after_last_slash(cs@.take(start as int)) + cs@.subrange(start as int, n as int),
        decreases start,
    {
        proof {
            let t = cs@.take(start as int);
            assert(t.drop_last() =~= cs@.take(start - 1));
            assert(t.last() == cs@[start - 1]);
            assert(cs@.subrange(start - 1, n as int) =~= seq![cs@[start - 1]] + cs@.subrange(start as int, n as int));
            assert(after_last_slash(t) == after_last_slash(cs@.take(start - 1)).push(cs@[start - 1]));
            assert(after_last_slash(cs@.take(start - 1)).push(cs@[start - 1]) + cs@.subrange(start as int, n as int)
                =~= after_last_slash(cs@.take(start - 1)) + cs@.subrange(start - 1, n as int));
        }
        start = start - 1;
    }
    proof {
        if start > 0 {
            let t = cs@.take(start as int);
            assert(t.last() == '/');
            assert(after_last_slash(t) == Seq::<char>::empty());
        } else {
            assert(cs@.take(0) =~= Seq::<char>::empty());
        }
        assert(after_last_slash(cs@) =~= cs@.subrange(start as int, n as int));
    }
    string_from_chars(&cs, start, n)
}

/// How many of the resources have the canonical provider name `p`.
pub open spec fn provider_count(rs: Seq<StateResource>, p: Seq<char>) -> nat
    decreases rs.len(),
{
    if rs.len() == 0 {
        0
    } else {
        provider_count(rs.drop_last(), p) + if after_last_slash(rs.last().provider_name@) == p {
            1nat
        } else {
            0
        }
    }
}

/// Whether `p` is the dominant provider of `rs`: the canonical provider
/// of some resource, with the highest count; among equal counts the
/// name that sorts last.
pub open spec fn is_dominant(rs: Seq<StateResource>, p: Seq<char>) -> bool {
    &&& exists|i: int| 0 <= i < rs.len() && after_last_slash(#[trigger] rs[i].provider_name@) == p
    &&& forall|i: int| 0 <= i < rs.len() ==> {
        let q = after_last_slash(#[trigger] rs[i].provider_name@);
        provider_count(rs, q) < provider_count(rs, p) || (provider_count(rs, q) == provider_count(rs, p)
            && !seq_lt(p, q))
    }
}

fn count_provider(names: &Vec<String>, p: &str) -> (r: usize)
    ensures
        r == count_names(names@, p@),
{
    let mut c: usize = 0;
    let mut i: usize = 0;
    while i < names.len()
        invariant
            i <= names@.len(),
            c == count_names(names@.take(i as int), p@),
            c <= i,
        decreases names@.len() - i,
    {
        proof {
            assert(names@.take(i + 1).drop_last() =~= names@.take(i as int));
        }
        if str_eq(names[i].as_str(), p) {
            c = c + 1;
        }
        i = i + 1;
    }
    proof {
        assert(names@.take(names@.len() as int) =~= names@);
    }
    c
}

/// How many of `names` are `p`.
pub open spec fn count_names(names: Seq<String>, p: Seq<char>) -> nat
    decreases names.len(),
{
    if names.len() == 0 {
        0
    } else {
        count_names(names.drop_last(), p) + if names.last()@ == p {
            1nat
        } else {
            0
        }
    }
}

proof fn lemma_counts_agree(rs: Seq<StateResource>, names: Seq<String>, p: Seq<char>)
    requires
        names.len() == rs.len(),
        forall|i: int| 0 <= i < rs.len() ==> #[trigger] names[i]@ == after_last_slash(rs[i].provider_name@),
    ensures
        count_names(names, p) == provider_count(rs, p),
    decreases rs.len(),
{
    if rs.len() > 0 {
        let rd = rs.drop_last();
        let nd = names.drop_last();
        assert forall|i: int| 0 <= i < rd.len() implies #[trigger] nd[i]@ == after_last_slash(rd[i].provider_name@) by {
            assert(nd[i] == names[i]);
            assert(rd[i] == rs[i]);
        }
        lemma_counts_agree(rd, nd, p);
        assert(names[names.len() - 1]@ == after_last_slash(rs[rs.len() - 1].provider_name@));
    }
}

/// The most common canonical provider among the resources, the one that
/// sorts last among equally common ones; `None` for no resources.
pub fn dominant_provider(resources: &Vec<&StateResource>) -> (r: Option<String>)
    ensures
        match r {
            None => resources@.len() == 0,
            Some(p) => is_dominant(deref_all(resources@), p@),
        },
{
    let ghost rs = deref_all(resources@);
    let mut names: Vec<String> = Vec::new();
    let mut i: usize = 0;
    while i < resources.len()
        invariant
            rs == deref_all(resources@),
            i <= rs.len(),
            names@.len() == i,
            forall|k: int| 0 <= k < i ==> #[trigger] names@[k]@ == after_last_slash(rs[k].provider_name@),
        decreases rs.len() - i,
    {
        let n = canonical_provider_name(resources[i].provider_name.as_str());
        names.push(n);
        i = i + 1;
    }
    if names.len() == 0 {
        return None;
    }
    proof {
        lemma_counts_agree(rs, names@, names@[0]@);
    }
    let mut best: usize = 0;
    let mut best_count = count_provider(&names, names[0].as_str());
    proof {
        lemma_seq_lt_irreflexive(names@[0]@);
    }
    let mut j: usize = 1;
    while j < names.len()
        invariant
            names@.len() == rs.len(),
            forall|k: int| 0 <= k < rs.len() ==> #[trigger] names@[k]@ == after_last_slash(rs[k].provider_name@),
            1 <= j <= names@.len(),
            best < names@.len(),
            best_count == provider_count(rs, names@[best as int]@),
            forall|k: int| 0 <= k < j ==> {
                let q = (#[trigger] names@[k])@;
                provider_count(rs, q) < best_count || (provider_count(rs, q) == best_count
                    && !seq_lt(names@[best as int]@, q))
            },
        decreases names@.len() - j,
    {
        let c = count_provider(&names, names[j].as_str());
        proof {
            lemma_counts_agree(rs, names@, names@[j as int]@);
        }
        let ghost old_best = names@[best as int]@;
        if c > best_count || (c == best_count && !str_lt(names[j].as_str(), names[best].as_str())) {
            proof {
                let nb = names@[j as int]@;
                assert forall|k: int| 0 <= k < j + 1 implies {
                    let q = (#[trigger] names@[k])@;
                    provider_count(rs, q) < c || (provider_count(rs, q) == c && !seq_lt(nb, q))
                } by {
                    let q = names@[k]@;
                    if k < j {
                        if provider_count(rs, q) == c {
                            // then c == best_count and !seq_lt(old_best, q)
                            lemma_seq_lt_total(old_best, nb);
                            if seq_lt(nb, q) {
                                if old_best == nb {
                                } else if seq_lt(old_best, nb) {
                                    lemma_seq_lt_transitive(old_best, nb, q);
                                } else {
                                    lemma_seq_lt_asymmetric(nb, old_best);
                                }
                            }
                        }
                    } else {
                        lemma_seq_lt_irreflexive(nb);
                    }
                }
            }
            best = j;
            best_count = c;
        } else {
            proof {
                let q = names@[j as int]@;
                if c == best_count {
                    assert(seq_lt(q, old_best));
                    lemma_seq_lt_asymmetric(q, old_best);
                }
            }
        }
        j = j + 1;
    }
    proof {
        let p = names@[best as int]@;
        assert(after_last_slash(rs[best as int].provider_name@) == p);
        assert forall|i: int| 0 <= i < rs.len() implies {
            let q = after_last_slash(#[trigger] rs[i].provider_name@);
            provider_count(rs, q) < provider_count(rs, p) || (provider_count(rs, q) == provider_count(rs, p)
                && !seq_lt(p, q))
        } by {
            assert(names@[i]@ == after_last_slash(rs[i].provider_name@));
        }
    }
    Some(names[best].clone())
}

/// Blocking drift: the apply did not land as planned.
#[derive(Debug)]
pub enum VerifierIssue {
    /// In the plan, not in state.
    MissingResource { address: String, resource_type: String },
    /// The same address with another type in state.
    TypeMismatch { address: String, expected_type: String, actual_type: String },
}

/// A `VerifierIssue` with its strings taken by value.
pub enum IssueView {
    MissingResource { address: Seq<char>, resource_type: Seq<char> },
    TypeMismatch { address: Seq<char>, expected_type: Seq<char>, actual_type: Seq<char> },
}

impl View for VerifierIssue {
    type V = IssueView;

    open spec fn view(&self) -> IssueView {
        match self {
            VerifierIssue::MissingResource { address, resource_type } => IssueView::MissingResource {
                address: address@,
                resource_type: resource_type@,
            },
            VerifierIssue::TypeMismatch { address, expected_type, actual_type } => IssueView::TypeMismatch {
                address: address@,
                expected_type: expected_type@,
                actual_type: actual_type@,
            },
        }
    }
}

/// The address an issue is about.
pub open spec fn issue_address(v: IssueView) -> Seq<char> {
    match v {
        IssueView::MissingResource { address, .. } => address,
        IssueView::TypeMismatch { address, .. } => address,
    }
}

/// The display text of an issue.
pub open spec fn issue_text(v: IssueView) -> Seq<char> {
    match v {
        IssueView::MissingResource { address, resource_type } => "Article IV violation: '"@ + address
            + "' (type='"@ + resource_type
            + "') is in the plan but not in state — apply may have partially failed"@,
        IssueView::TypeMismatch { address, expected_type, actual_type } => "Article IV violation: '"@
            + address + "' has type '"@ + actual_type + "' in state but plan expected '"@ + expected_type
            + "' — state has been hand-edited or rolled back"@,
    }
}

impl VerifierIssue {
    /// The display text of this issue.
    pub fn message(&self) -> (r: String)
        ensures
            r@ == issue_text(self@),
    {
        match self {
            VerifierIssue::MissingResource { address, resource_type } => {
                let mut s = owned("Article IV violation: '");
                s.append(address.as_str());
                s.append("' (type='");
                s.append(resource_type.as_str());
                s.append("') is in the plan but not in state — apply may have partially failed");
                s
            },
            VerifierIssue::TypeMismatch { address, expected_type, actual_type } => {
                let mut s = owned("Article IV violation: '");
                s.append(address.as_str());
                s.append("' has type '");
                s.append(actual_type.as_str());
                s.append("' in state but plan expected '");
                s.append(expected_type.as_str());
                s.append("' — state has been hand-edited or rolled back");
                s
            },
        }
    }
}

/// Non-blocking drift.
#[derive(Debug)]
pub enum VerifierWarning {
    /// In state, not in the plan.
    ExtraResource { address: String, resource_type: String },
}

/// The display text of an extra resource at `address` of `resource_type`.
pub open spec fn extra_text(address: Seq<char>, resource_type: Seq<char>) -> Seq<char> {
    "extra resource: '"@ + address + "' (type='"@ + resource_type
        + "') is in state but not in the plan — possibly hand-added or pre-existing"@
}

impl VerifierWarning {
    /// The display text of this warning.
    pub fn message(&self) -> (r: String)
        ensures
            r@ == match self {
                VerifierWarning::ExtraResource { address, resource_type } => extra_text(address@, resource_type@),
            },
    {
        match self {
            VerifierWarning::ExtraResource { address, resource_type } => {
                let mut s = owned("extra resource: '");
                s.append(address.as_str());
                s.append("' (type='");
                s.append(resource_type.as_str());
                s.append("') is in state but not in the plan — possibly hand-added or pre-existing");
                s
            },
        }
    }
}

/// What the post-apply check returns: every drift finding.
#[derive(Debug)]
pub struct VerifierReport {
    /// `true` iff `errors` is empty; warnings never flip it.
    pub passed: bool,
    /// The migration run (the UUID's 128 bits).
    pub run_id: u128,
    /// Resources the plan expects.
    pub expected_count: usize,
    /// Resources in state, child modules included.
    pub actual_count: usize,
    pub errors: Vec<VerifierIssue>,
    pub warnings: Vec<VerifierWarning>,
}

impl VerifierReport {
    /// A report over the findings; `passed` is derived.
    pub fn new(
        run_id: u128,
        expected_count: usize,
        actual_count: usize,
        errors: Vec<VerifierIssue>,
        warnings: Vec<VerifierWarning>,
    ) -> (r: Self)
        ensures
            r.passed == (errors@.len() == 0),
            r.run_id == run_id,
            r.expected_count == expected_count,
            r.actual_count == actual_count,
            r.errors == errors,
            r.warnings == warnings,
    {
        let passed = errors.len() == 0;
        VerifierReport { passed, run_id, expected_count, actual_count, errors, warnings }
    }
}

/// What stops the comparison from happening at all.
#[derive(Debug)]
pub enum VerifierError {
    /// The state JSON did not parse (the parser's message).
    ParseFailed(String),
    /// The state's `format_version` is not "1.x".
    UnsupportedFormatVersion(String),
    /// The state's dominant provider is not the plan's target provider.
    ProviderMismatch { expected: String, actual: String },
}

/// The display text of a verifier failure.
pub open spec fn verifier_error_text(e: VerifierError) -> Seq<char> {
    match e {
        VerifierError::ParseFailed(m) => "failed to parse terraform-show JSON: "@ + m@,
        VerifierError::UnsupportedFormatVersion(v) => "unsupported terraform-show format_version: '"@ + v@
            + "' (expected '1.x'; Stage 1 ships against Terraform 1.10+)"@,
        VerifierError::ProviderMismatch { expected, actual } => "provider mismatch: plan targets '"@
            + expected@ + "', state contains '"@ + actual@
            + "' (likely the operator pointed Verifier at the wrong state file)"@,
    }
}

impl VerifierError {
    /// The display text of this failure.
    pub fn message(&self) -> (r: String)
        ensures
            r@ == verifier_error_text(*self),
    {
        match self {
            VerifierError::ParseFailed(m) => {
                let mut s = owned("failed to parse terraform-show JSON: ");
                s.append(m.as_str());
                s
            },
            VerifierError::UnsupportedFormatVersion(v) => {
                let mut s = owned("unsupported terraform-show format_version: '");
                s.append(v.as_str());
                s.append("' (expected '1.x'; Stage 1 ships against Terraform 1.10+)");
                s
            },
            VerifierError::ProviderMismatch { expected, actual } => {
                let mut s = owned("provider mismatch: plan targets '");
                s.append(expected.as_str());
                s.append("', state contains '");
                s.append(actual.as_str());
                s.append("' (likely the operator pointed Verifier at the wrong state file)");
                s
            },
        }
    }
}

/// The index of the last plan resource at `a`.
pub open spec fn plan_last(rs: Seq<MappedResource>, a: Seq<char>) -> Option<int>
    decreases rs.len(),
{
    if rs.len() == 0 {
        None
    } else if rs.last().target_addr@ == a {
        Some(rs.len() - 1)
    } else {
        plan_last(rs.drop_last(), a)
    }
}

/// The index of the last managed state resource at `a`.
pub open spec fn state_last(ss: Seq<StateResource>, a: Seq<char>) -> Option<int>
    decreases ss.len(),
{
    if ss.len() == 0 {
        None
    } else if ss.last().address@ == a && ss.last().mode@ == "managed"@ {
        Some(ss.len() - 1)
    } else {
        state_last(ss.drop_last(), a)
    }
}

proof fn lemma_plan_last_bound(rs: Seq<MappedResource>, a: Seq<char>)
    ensures
        plan_last(rs, a) matches Some(i) ==> 0 <= i < rs.len() && rs[i].target_addr@ == a,
    decreases rs.len(),
{
    if rs.len() > 0 {
        lemma_plan_last_bound(rs.drop_last(), a);
    }
}

proof fn lemma_state_last_bound(ss: Seq<StateResource>, a: Seq<char>)
    ensures
        state_last(ss, a) matches Some(i) ==> 0 <= i < ss.len() && ss[i].address@ == a && ss[i].mode@
            == "managed"@,
    decreases ss.len(),
{
    if ss.len() > 0 {
        lemma_state_last_bound(ss.drop_last(), a);
    }
}

/// An optional index as an integer option.
pub open spec fn opt_int(o: Option<usize>) -> Option<int> {
    match o {
        Some(i) => Some(i as int),
        None => None,
    }
}

/// Strictly increasing addresses: sorted, each once.
pub open spec fn increasing(addrs: Seq<Seq<char>>) -> bool {
    forall|i: int, j: int| 0 <= i < j < addrs.len() ==> seq_lt(#[trigger] addrs[i], #[trigger] addrs[j])
}

fn index_plan(rs: &Vec<MappedResource>) -> (m: StrMap<usize>)
    ensures
        forall|a: Seq<char>| #[trigger] opt_int(m.spec_get(a)) == plan_last(rs@, a),
{
    let mut m: StrMap<usize> = StrMap::new();
    let mut i: usize = 0;
    while i < rs.len()
        invariant
            i <= rs@.len(),
            forall|a: Seq<char>| #[trigger] opt_int(m.spec_get(a)) == plan_last(rs@.take(i as int), a),
        decreases rs@.len() - i,
    {
        m.insert(rs[i].target_addr.clone(), i);
        proof {
            assert forall|a: Seq<char>| #[trigger] opt_int(m.spec_get(a)) == plan_last(rs@.take(i + 1), a) by {
                assert(rs@.take(i + 1).drop_last() =~= rs@.take(i as int));
            }
        }
        i = i + 1;
    }
    proof {
        assert(rs@.take(rs@.len() as int) =~= rs@);
    }
    m
}

fn index_state(ss: &Vec<&StateResource>) -> (m: StrMap<usize>)
    ensures
        forall|a: Seq<char>| #[trigger] opt_int(m.spec_get(a)) == state_last(deref_all(ss@), a),
{
    let ghost d = deref_all(ss@);
    let mut m: StrMap<usize> = StrMap::new();
    let mut i: usize = 0;
    while i < ss.len()
        invariant
            d == deref_all(ss@),
            i <= d.len(),
            forall|a: Seq<char>| #[trigger] opt_int(m.spec_get(a)) == state_last(d.take(i as int), a),
        decreases d.len() - i,
    {
        proof {
            reveal_strlit("managed");
        }
        if str_eq(ss[i].mode.as_str(), "managed") {
            m.insert(ss[i].address.clone(), i);
        }
        proof {
            assert forall|a: Seq<char>| #[trigger] opt_int(m.spec_get(a)) == state_last(d.take(i + 1), a) by {
                assert(d.take(i + 1).drop_last() =~= d.take(i as int));
                assert(d.take(i + 1).last() == d[i as int]);
            }
        }
        i = i + 1;
    }
    proof {
        assert(d.take(d.len() as int) =~= d);
    }
    m
}

/// The addresses of a list of issues.
pub open spec fn issue_addrs(v: Seq<VerifierIssue>) -> Seq<Seq<char>> {
    v.map_values(|i: VerifierIssue| issue_address(i@))
}

/// The addresses of a list of warnings.
pub open spec fn warning_addrs(v: Seq<VerifierWarning>) -> Seq<Seq<char>> {
    v.map_values(|w: VerifierWarning| match w {
        VerifierWarning::ExtraResource { address, .. } => address@,
    })
}

fn collect_missing(exp: &StrMap<usize>, act: &StrMap<usize>, rs: &Vec<MappedResource>) -> (out: Vec<VerifierIssue>)
    requires
        forall|a: Seq<char>| #[trigger] exp.spec_get(a) matches Some(i) ==> i < rs@.len(),
    ensures
        increasing(issue_addrs(out@)),
        forall|k: int| 0 <= k < out@.len() ==> {
            let v = (#[trigger] out@[k])@;
            &&& v matches IssueView::MissingResource { address, resource_type }
            &&& exp.spec_get(issue_address(v)) matches Some(i) && v->MissingResource_resource_type
                == rs@[i as int].target_type@
            &&& !act.spec_has(issue_address(v))
        },
        forall|a: Seq<char>| exp.spec_has(a) && !act.spec_has(a) ==> #[trigger] issue_addrs(out@).contains(a),
{
    let n = exp.len();
    let ghost ents = exp@;
    let mut out: Vec<VerifierIssue> = Vec::new();
    let mut j: usize = 0;
    while j < n
        invariant
            n == ents.len(),
            ents == exp@,
            sorted_keys(ents),
            j <= n,
            forall|a: Seq<char>| #[trigger] exp.spec_get(a) matches Some(i) ==> i < rs@.len(),
            forall|k: int| 0 <= k < out@.len() ==> exists|m: int| 0 <= m < j && #[trigger] issue_addrs(out@)[k] == ents[m].0,
            increasing(issue_addrs(out@)),
            forall|k: int| 0 <= k < out@.len() ==> {
                let v = (#[trigger] out@[k])@;
                &&& v matches IssueView::MissingResource { address, resource_type }
                &&& exp.spec_get(issue_address(v)) matches Some(i) && v->MissingResource_resource_type
                    == rs@[i as int].target_type@
                &&& !act.spec_has(issue_address(v))
            },
            forall|m: int| 0 <= m < j && !act.spec_has(ents[m].0) ==> #[trigger] issue_addrs(out@).contains(ents[m].0),
        decreases n - j,
    {
        let a = exp.key_at(j);
        let idx = *exp.value_at(j);
        proof {
            lemma_lookup_at(ents, j as int);
            assert(exp.spec_get(ents[j as int].0) == Some(idx));
        }
        if !act.contains_key(a.as_str()) {
            let ghost before = out@;
            let t = rs[idx].target_type.clone();
            out.push(VerifierIssue::MissingResource { address: a.clone(), resource_type: t });
            proof {
                assert(issue_addrs(out@) =~= issue_addrs(before).push(ents[j as int].0));
                assert forall|k: int| 0 <= k < out@.len() implies exists|m: int| 0 <= m < j + 1 && #[trigger] issue_addrs(out@)[k] == ents[m].0 by {
                    if k < before.len() {
                        assert(issue_addrs(out@)[k] == issue_addrs(before)[k]);
                        let m = choose|m: int| 0 <= m < j && #[trigger] issue_addrs(before)[k] == ents[m].0;
                        assert(issue_addrs(out@)[k] == ents[m].0);
                    } else {
                        assert(issue_addrs(out@)[k] == ents[j as int].0);
                    }
                }
                assert forall|x: int, y: int| 0 <= x < y < out@.len() implies seq_lt(#[trigger] issue_addrs(out@)[x], #[trigger] issue_addrs(out@)[y]) by {
                    if y < before.len() {
                        assert(issue_addrs(out@)[x] == issue_addrs(before)[x]);
                        assert(issue_addrs(out@)[y] == issue_addrs(before)[y]);
                    } else {
                        assert(issue_addrs(out@)[x] == issue_addrs(before)[x]);
                        let m = choose|m: int| 0 <= m < j && #[trigger] issue_addrs(before)[x] == ents[m].0;
                        assert(seq_lt(ents[m].0, ents[j as int].0));
                    }
                }
                assert forall|m: int| 0 <= m < j + 1 && !act.spec_has(ents[m].0) implies #[trigger] issue_addrs(out@).contains(ents[m].0) by {
                    if m < j {
                        assert(issue_addrs(before).contains(ents[m].0));
                        let k = choose|k: int| 0 <= k < issue_addrs(before).len() && issue_addrs(before)[k] == ents[m].0;
                        assert(issue_addrs(out@)[k] == ents[m].0);
                    } else {
                        assert(issue_addrs(out@)[before.len() as int] == ents[m].0);
                    }
                }
            }
        } else {
            proof {
                assert forall|m: int| 0 <= m < j + 1 && !act.spec_has(ents[m].0) implies #[trigger] issue_addrs(out@).contains(ents[m].0) by {
                }
                assert forall|k: int| 0 <= k < out@.len() implies exists|m: int| 0 <= m < j + 1 && #[trigger] issue_addrs(out@)[k] == ents[m].0 by {
                    let m = choose|m: int| 0 <= m < j && #[trigger] issue_addrs(out@)[k] == ents[m].0;
                }
            }
        }
        j = j + 1;
    }
    proof {
        assert forall|a: Seq<char>| exp.spec_has(a) && !act.spec_has(a) implies #[trigger] issue_addrs(out@).contains(a) by {
            let m = choose|m: int| 0 <= m < ents.len() && #[trigger] ents[m].0 == a;
            assert(ents[m].0 == a);
        }
    }
    out
}

/// Whether plan and state disagree on the type at `a`.
pub open spec fn types_differ(
    exp: StrMap<usize>,
    act: StrMap<usize>,
    rs: Seq<MappedResource>,
    ss: Seq<StateResource>,
    a: Seq<char>,
) -> bool {
    &&& exp.spec_get(a) matches Some(i)
    &&& act.spec_get(a) matches Some(si)
    &&& rs[exp.spec_get(a)->0 as int].target_type@ != ss[act.spec_get(a)->0 as int].resource_type@
}

fn collect_mismatch(exp: &StrMap<usize>, act: &StrMap<usize>, rs: &Vec<MappedResource>, ss: &Vec<&StateResource>) -> (out: Vec<VerifierIssue>)
    requires
        forall|a: Seq<char>| #[trigger] exp.spec_get(a) matches Some(i) ==> i < rs@.len(),
        forall|a: Seq<char>| #[trigger] act.spec_get(a) matches Some(i) ==> i < ss@.len(),
    ensures
        increasing(issue_addrs(out@)),
        forall|k: int| 0 <= k < out@.len() ==> {
            let v = (#[trigger] out@[k])@;
            &&& v matches IssueView::TypeMismatch { address, expected_type, actual_type }
            &&& types_differ(*exp, *act, rs@, deref_all(ss@), issue_address(v))
            &&& v->TypeMismatch_expected_type == rs@[exp.spec_get(issue_address(v))->0 as int].target_type@
            &&& v->TypeMismatch_actual_type == ss@[act.spec_get(issue_address(v))->0 as int].resource_type@
        },
        forall|a: Seq<char>| types_differ(*exp, *act, rs@, deref_all(ss@), a) ==> #[trigger] issue_addrs(out@).contains(a),
{
    let n = exp.len();
    let ghost ents = exp@;
    let ghost d = deref_all(ss@);
    let mut out: Vec<VerifierIssue> = Vec::new();
    let mut j: usize = 0;
    while j < n
        invariant
            n == ents.len(),
            ents == exp@,
            d == deref_all(ss@),
            sorted_keys(ents),
            j <= n,
            forall|a: Seq<char>| #[trigger] exp.spec_get(a) matches Some(i) ==> i < rs@.len(),
            forall|a: Seq<char>| #[trigger] act.spec_get(a) matches Some(i) ==> i < ss@.len(),
            forall|k: int| 0 <= k < out@.len() ==> exists|m: int| 0 <= m < j && #[trigger] issue_addrs(out@)[k] == ents[m].0,
            increasing(issue_addrs(out@)),
            forall|k: int| 0 <= k < out@.len() ==> {
                let v = (#[trigger] out@[k])@;
                &&& v matches IssueView::TypeMismatch { address, expected_type, actual_type }
                &&& types_differ(*exp, *act, rs@, d, issue_address(v))
                &&& v->TypeMismatch_expected_type == rs@[exp.spec_get(issue_address(v))->0 as int].target_type@
                &&& v->TypeMismatch_actual_type == ss@[act.spec_get(issue_address(v))->0 as int].resource_type@
            },
            forall|m: int| 0 <= m < j && types_differ(*exp, *act, rs@, d, ents[m].0) ==> #[trigger] issue_addrs(out@).contains(ents[m].0),
        decreases n - j,
    {
        let a = exp.key_at(j);
        let idx = *exp.value_at(j);
        proof {
            lemma_lookup_at(ents, j as int);
            assert(exp.spec_get(ents[j as int].0) == Some(idx));
        }
        let mut pushed = false;
        match act.get(a.as_str()) {
            Some(si) => {
                let si = *si;
                if !str_eq(rs[idx].target_type.as_str(), ss[si].resource_type.as_str()) {
                    let ghost before = out@;
                    out.push(VerifierIssue::TypeMismatch {
                        address: a.clone(),
                        expected_type: rs[idx].target_type.clone(),
                        actual_type: ss[si].resource_type.clone(),
                    });
                    pushed = true;
                    proof {
                        assert(d[si as int] == *ss@[si as int]);
                        assert(issue_addrs(out@) =~= issue_addrs(before).push(ents[j as int].0));
                        assert forall|k: int| 0 <= k < out@.len() implies exists|m: int| 0 <= m < j + 1 && #[trigger] issue_addrs(out@)[k] == ents[m].0 by {
                            if k < before.len() {
                                assert(issue_addrs(out@)[k] == issue_addrs(before)[k]);
                                let m = choose|m: int| 0 <= m < j && #[trigger] issue_addrs(before)[k] == ents[m].0;
                                assert(issue_addrs(out@)[k] == ents[m].0);
                            } else {
                                assert(issue_addrs(out@)[k] == ents[j as int].0);
                            }
                        }
                        assert forall|x: int, y: int| 0 <= x < y < out@.len() implies seq_lt(#[trigger] issue_addrs(out@)[x], #[trigger] issue_addrs(out@)[y]) by {
                            if y < before.len() {
                                assert(issue_addrs(out@)[x] == issue_addrs(before)[x]);
                                assert(issue_addrs(out@)[y] == issue_addrs(before)[y]);
                            } else {
                                assert(issue_addrs(out@)[x] == issue_addrs(before)[x]);
                                let m = choose|m: int| 0 <= m < j && #[trigger] issue_addrs(before)[x] == ents[m].0;
                                assert(seq_lt(ents[m].0, ents[j as int].0));
                            }
                        }
                        assert forall|m: int| 0 <= m < j + 1 && types_differ(*exp, *act, rs@, d, ents[m].0) implies #[trigger] issue_addrs(out@).contains(ents[m].0) by {
                            if m < j {
                                assert(issue_addrs(before).contains(ents[m].0));
                                let k = choose|k: int| 0 <= k < issue_addrs(before).len() && issue_addrs(before)[k] == ents[m].0;
                                assert(issue_addrs(out@)[k] == ents[m].0);
                            } else {
                                assert(issue_addrs(out@)[before.len() as int] == ents[m].0);
                            }
                        }
                    }
                } else {
                    proof {
                        assert(d[si as int] == *ss@[si as int]);
                    }
                }
            },
            None => {},
        }
        if !pushed {
            proof {
                assert forall|m: int| 0 <= m < j + 1 && types_differ(*exp, *act, rs@, d, ents[m].0) implies #[trigger] issue_addrs(out@).contains(ents[m].0) by {
                }
                assert forall|k: int| 0 <= k < out@.len() implies exists|m: int| 0 <= m < j + 1 && #[trigger] issue_addrs(out@)[k] == ents[m].0 by {
                    let m = choose|m: int| 0 <= m < j && #[trigger] issue_addrs(out@)[k] == ents[m].0;
                }
            }
        }
        j = j + 1;
    }
    proof {
        assert forall|a: Seq<char>| types_differ(*exp, *act, rs@, d, a) implies #[trigger] issue_addrs(out@).contains(a) by {
            let m = choose|m: int| 0 <= m < ents.len() && #[trigger] ents[m].0 == a;
            assert(ents[m].0 == a);
        }
    }
    out
}

fn collect_extra(exp: &StrMap<usize>, act: &StrMap<usize>, ss: &Vec<&StateResource>) -> (out: Vec<VerifierWarning>)
    requires
        forall|a: Seq<char>| #[trigger] act.spec_get(a) matches Some(i) ==> i < ss@.len(),
    ensures
        increasing(warning_addrs(out@)),
        forall|k: int| 0 <= k < out@.len() ==> {
            let w = #[trigger] out@[k];
            let a = warning_addrs(out@)[k];
            &&& !exp.spec_has(a)
            &&& act.spec_get(a) matches Some(si)
            &&& w matches VerifierWarning::ExtraResource { address, resource_type } && resource_type@
                == ss@[act.spec_get(a)->0 as int].resource_type@
        },
        forall|a: Seq<char>| act.spec_has(a) && !exp.spec_has(a) ==> #[trigger] warning_addrs(out@).contains(a),
{
    let n = act.len();
    let ghost ents = act@;
    let mut out: Vec<VerifierWarning> = Vec::new();
    let mut j: usize = 0;
    while j < n
        invariant
            n == ents.len(),
            ents == act@,
            sorted_keys(ents),
            j <= n,
            forall|a: Seq<char>| #[trigger] act.spec_get(a) matches Some(i) ==> i < ss@.len(),
            forall|k: int| 0 <= k < out@.len() ==> exists|m: int| 0 <= m < j && #[trigger] warning_addrs(out@)[k] == ents[m].0,
            increasing(warning_addrs(out@)),
            forall|k: int| 0 <= k < out@.len() ==> {
                let w = #[trigger] out@[k];
                let a = warning_addrs(out@)[k];
                &&& !exp.spec_has(a)
                &&& act.spec_get(a) matches Some(si)
                &&& w matches VerifierWarning::ExtraResource { address, resource_type } && resource_type@
                    == ss@[act.spec_get(a)->0 as int].resource_type@
            },
            forall|m: int| 0 <= m < j && !exp.spec_has(ents[m].0) ==> #[trigger] warning_addrs(out@).contains(ents[m].0),
        decreases n - j,
    {
        let a = act.key_at(j);
        let si = *act.value_at(j);
        proof {
            lemma_lookup_at(ents, j as int);
            assert(act.spec_get(ents[j as int].0) == Some(si));
        }
        if !exp.contains_key(a.as_str()) {
            let ghost before = out@;
            out.push(VerifierWarning::ExtraResource { address: a.clone(), resource_type: ss[si].resource_type.clone() });
            proof {
                assert(warning_addrs(out@) =~= warning_addrs(before).push(ents[j as int].0));
                assert forall|k: int| 0 <= k < out@.len() implies exists|m: int| 0 <= m < j + 1 && #[trigger] warning_addrs(out@)[k] == ents[m].0 by {
                    if k < before.len() {
                        assert(warning_addrs(out@)[k] == warning_addrs(before)[k]);
                        let m = choose|m: int| 0 <= m < j && #[trigger] warning_addrs(before)[k] == ents[m].0;
                        assert(warning_addrs(out@)[k] == ents[m].0);
                    } else {
                        assert(warning_addrs(out@)[k] == ents[j as int].0);
                    }
                }
                assert forall|x: int, y: int| 0 <= x < y < out@.len() implies seq_lt(#[trigger] warning_addrs(out@)[x], #[trigger] warning_addrs(out@)[y]) by {
                    if y < before.len() {
                        assert(warning_addrs(out@)[x] == warning_addrs(before)[x]);
                        assert(warning_addrs(out@)[y] == warning_addrs(before)[y]);
                    } else {
                        assert(warning_addrs(out@)[x] == warning_addrs(before)[x]);
                        let m = choose|m: int| 0 <= m < j && #[trigger] warning_addrs(before)[x] == ents[m].0;
                        assert(seq_lt(ents[m].0, ents[j as int].0));
                    }
                }
                assert forall|k: int| 0 <= k < out@.len() implies {
                    let w = #[trigger] out@[k];
                    let a = warning_addrs(out@)[k];
                    &&& !exp.spec_has(a)
                    &&& act.spec_get(a) matches Some(si)
                    &&& w matches VerifierWarning::ExtraResource { address, resource_type } && resource_type@
                        == ss@[act.spec_get(a)->0 as int].resource_type@
                } by {
                    if k < before.len() {
                        assert(out@[k] == before[k]);
                        assert(warning_addrs(out@)[k] == warning_addrs(before)[k]);
                    }
                }
                assert forall|m: int| 0 <= m < j + 1 && !exp.spec_has(ents[m].0) implies #[trigger] warning_addrs(out@).contains(ents[m].0) by {
                    if m < j {
                        assert(warning_addrs(before).contains(ents[m].0));
                        let k = choose|k: int| 0 <= k < warning_addrs(before).len() && warning_addrs(before)[k] == ents[m].0;
                        assert(warning_addrs(out@)[k] == ents[m].0);
                    } else {
                        assert(warning_addrs(out@)[before.len() as int] == ents[m].0);
                    }
                }
            }
        } else {
            proof {
                assert forall|m: int| 0 <= m < j + 1 && !exp.spec_has(ents[m].0) implies #[trigger] warning_addrs(out@).contains(ents[m].0) by {
                }
                assert forall|k: int| 0 <= k < out@.len() implies exists|m: int| 0 <= m < j + 1 && #[trigger] warning_addrs(out@)[k] == ents[m].0 by {
                    let m = choose|m: int| 0 <= m < j && #[trigger] warning_addrs(out@)[k] == ents[m].0;
                }
            }
        }
        j = j + 1;
    }
    proof {
        assert forall|a: Seq<char>| act.spec_has(a) && !exp.spec_has(a) implies #[trigger] warning_addrs(out@).contains(a) by {
            let m = choose|m: int| 0 <= m < ents.len() && #[trigger] ents[m].0 == a;
            assert(ents[m].0 == a);
        }
    }
    out
}

/// The plan expects a resource at `a` that state lacks.
pub open spec fn missing_at(rs: Seq<MappedResource>, ss: Seq<StateResource>, a: Seq<char>) -> bool {
    plan_last(rs, a) is Some && state_last(ss, a) is None
}

/// Plan and state both hold `a`, with different types (the last plan
/// resource and the last managed state resource at `a` count).
pub open spec fn mismatch_at(rs: Seq<MappedResource>, ss: Seq<StateResource>, a: Seq<char>) -> bool {
    &&& plan_last(rs, a) is Some
    &&& state_last(ss, a) is Some
    &&& rs[plan_last(rs, a)->0].target_type@ != ss[state_last(ss, a)->0].resource_type@
}

/// State holds a managed resource at `a` the plan does not expect.
pub open spec fn extra_at(rs: Seq<MappedResource>, ss: Seq<StateResource>, a: Seq<char>) -> bool {
    state_last(ss, a) is Some && plan_last(rs, a) is None
}

/// The missing-resource findings: one per missing address, in address
/// order, each with the plan's type.
pub open spec fn missing_part(e: Seq<VerifierIssue>, rs: Seq<MappedResource>, ss: Seq<StateResource>) -> bool {
    &&& increasing(issue_addrs(e))
    &&& forall|k: int| 0 <= k < e.len() ==> {
        let v = (#[trigger] e[k])@;
        &&& v matches IssueView::MissingResource { address, resource_type }
        &&& missing_at(rs, ss, issue_address(v))
        &&& v->MissingResource_resource_type == rs[plan_last(rs, issue_address(v))->0].target_type@
    }
    &&& forall|a: Seq<char>| missing_at(rs, ss, a) ==> #[trigger] issue_addrs(e).contains(a)
}

/// The type-mismatch findings: one per mismatched address, in address
/// order, with both types.
pub open spec fn mismatch_part(e: Seq<VerifierIssue>, rs: Seq<MappedResource>, ss: Seq<StateResource>) -> bool {
    &&& increasing(issue_addrs(e))
    &&& forall|k: int| 0 <= k < e.len() ==> {
        let v = (#[trigger] e[k])@;
        &&& v matches IssueView::TypeMismatch { address, expected_type, actual_type }
        &&& mismatch_at(rs, ss, issue_address(v))
        &&& v->TypeMismatch_expected_type == rs[plan_last(rs, issue_address(v))->0].target_type@
        &&& v->TypeMismatch_actual_type == ss[state_last(ss, issue_address(v))->0].resource_type@
    }
    &&& forall|a: Seq<char>| mismatch_at(rs, ss, a) ==> #[trigger] issue_addrs(e).contains(a)
}

/// The extra-resource findings: one per extra address, in address order,
/// with the state's type.
pub open spec fn extra_part(w: Seq<VerifierWarning>, rs: Seq<MappedResource>, ss: Seq<StateResource>) -> bool {
    &&& increasing(warning_addrs(w))
    &&& forall|k: int| 0 <= k < w.len() ==> {
        let a = warning_addrs(w)[k];
        &&& extra_at(rs, ss, a)
        &&& (#[trigger] w[k]) matches VerifierWarning::ExtraResource { address, resource_type } && resource_type@
            == ss[state_last(ss, a)->0].resource_type@
    }
    &&& forall|a: Seq<char>| extra_at(rs, ss, a) ==> #[trigger] warning_addrs(w).contains(a)
}

/// A report over `plan` and the flattened state `ss`: the missing
/// findings, then the type mismatches; the extras as warnings.
pub open spec fn drift_report(plan: MappingPlan, ss: Seq<StateResource>, r: VerifierReport) -> bool {
    let rs = plan.resources@;
    &&& r.run_id == plan.run_id
    &&& r.expected_count == rs.len()
    &&& r.actual_count == ss.len()
    &&& r.passed == (r.errors@.len() == 0)
    &&& exists|k: int| 0 <= k <= r.errors@.len() && #[trigger] missing_part(r.errors@.take(k), rs, ss)
        && mismatch_part(r.errors@.skip(k), rs, ss)
    &&& extra_part(r.warnings@, rs, ss)
}

/// A drift report passes exactly when state holds every planned address
/// with the planned type: no address is missing and none has another type
/// (extra state resources never fail it).
pub proof fn law_report_passes_iff_no_drift(plan: MappingPlan, ss: Seq<StateResource>, r: VerifierReport)
    requires
        drift_report(plan, ss, r),
    ensures
        r.passed <==> forall|a: Seq<char>| !missing_at(plan.resources@, ss, a) && !mismatch_at(plan.resources@, ss, a),
{
    let rs = plan.resources@;
    let k = choose|k: int| 0 <= k <= r.errors@.len() && #[trigger] missing_part(r.errors@.take(k), rs, ss)
        && mismatch_part(r.errors@.skip(k), rs, ss);
    let (m, t) = (r.errors@.take(k), r.errors@.skip(k));
    if r.passed {
        assert(m.len() == 0 && t.len() == 0);
        assert forall|a: Seq<char>| !missing_at(rs, ss, a) && !mismatch_at(rs, ss, a) by {
            if missing_at(rs, ss, a) {
                assert(issue_addrs(m).contains(a));
            }
            if mismatch_at(rs, ss, a) {
                assert(issue_addrs(t).contains(a));
            }
        }
    } else {
        if k > 0 {
            let v = m[0]@;
            assert(missing_at(rs, ss, issue_address(v)));
        } else {
            assert(t.len() > 0);
            let v = t[0]@;
            assert(mismatch_at(rs, ss, issue_address(v)));
        }
    }
}

/// Two dominant providers are the same provider.
pub proof fn law_dominant_provider_unique(rs: Seq<StateResource>, p: Seq<char>, q: Seq<char>)
    requires
        is_dominant(rs, p),
        is_dominant(rs, q),
    ensures
        p == q,
{
    let i = choose|i: int| 0 <= i < rs.len() && after_last_slash(#[trigger] rs[i].provider_name@) == p;
    let j = choose|j: int| 0 <= j < rs.len() && after_last_slash(#[trigger] rs[j].provider_name@) == q;
    assert(after_last_slash(rs[j].provider_name@) == q);
    assert(after_last_slash(rs[i].provider_name@) == p);
    lemma_seq_lt_total(p, q);
}

/// The stateless post-apply gate.
pub struct Verifier;

impl Verifier {
    pub fn new() -> (r: Self) {
        Verifier
    }

    /// Compares the plan's expected resources with the state's managed
    /// resources. Refused when the state's format is not "1.x", or when
    /// the state's dominant provider is not the plan's target provider
    /// (a state with no resources has none); otherwise every drift
    /// finding is reported.
    pub fn verify_state(&self, plan: &MappingPlan, state: &TerraformState) -> (r: Result<VerifierReport, VerifierError>)
        ensures
            !seq_starts_with(state.format_version@, "1."@) ==> (r matches Err(
                VerifierError::UnsupportedFormatVersion(v),
            ) && v@ == state.format_version@),
            seq_starts_with(state.format_version@, "1."@) ==> match r {
                Ok(report) => (state_flat(*state).len() == 0 || is_dominant(state_flat(*state), plan.target_provider@))
                    && drift_report(*plan, state_flat(*state), report),
                Err(VerifierError::ProviderMismatch { expected, actual }) => expected@ == plan.target_provider@
                    && actual@ != plan.target_provider@ && is_dominant(state_flat(*state), actual@),
                Err(_) => false,
            },
    {
        if !starts_with(state.format_version.as_str(), "1.") {
            return Err(VerifierError::UnsupportedFormatVersion(state.format_version.clone()));
        }
        let actual = flatten_resources(state);
        let ghost ss = state_flat(*state);
        let ghost rs = plan.resources@;
        match dominant_provider(&actual) {
            Some(p) => {
                if !str_eq(p.as_str(), plan.target_provider.as_str()) {
                    return Err(VerifierError::ProviderMismatch { expected: plan.target_provider.clone(), actual: p });
                }
            },
            None => {},
        }
        let exp = index_plan(&plan.resources);
        let act = index_state(&actual);
        proof {
            assert forall|a: Seq<char>| (#[trigger] exp.spec_get(a)) is Some implies exp.spec_get(a)->0 < rs.len() by {
                assert(opt_int(exp.spec_get(a)) == plan_last(rs, a));
                lemma_plan_last_bound(rs, a);
            }
            assert forall|a: Seq<char>| (#[trigger] act.spec_get(a)) is Some implies act.spec_get(a)->0 < actual@.len() by {
                assert(opt_int(act.spec_get(a)) == state_last(ss, a));
                lemma_state_last_bound(ss, a);
            }
        }
        let missing = collect_missing(&exp, &act, &plan.resources);
        let mismatched = collect_mismatch(&exp, &act, &plan.resources, &actual);
        let extras = collect_extra(&exp, &act, &actual);
        proof {
            // The maps' lookups are the last-index functions.
            assert forall|a: Seq<char>| #[trigger] exp.spec_has(a) == (plan_last(rs, a) is Some) by {
                assert(opt_int(exp.spec_get(a)) == plan_last(rs, a));
            }
            assert forall|a: Seq<char>| #[trigger] act.spec_has(a) == (state_last(ss, a) is Some) by {
                assert(opt_int(act.spec_get(a)) == state_last(ss, a));
            }
            assert(missing_part(missing@, rs, ss)) by {
                assert forall|k: int| 0 <= k < missing@.len() implies {
                    let v = (#[trigger] missing@[k])@;
                    &&& v matches IssueView::MissingResource { address, resource_type }
                    &&& missing_at(rs, ss, issue_address(v))
                    &&& v->MissingResource_resource_type == rs[plan_last(rs, issue_address(v))->0].target_type@
                } by {
                    let a = issue_address(missing@[k]@);
                    assert(opt_int(exp.spec_get(a)) == plan_last(rs, a));
                    assert(exp.spec_has(a) == (plan_last(rs, a) is Some));
                    assert(act.spec_has(a) == (state_last(ss, a) is Some));
                }
                assert forall|a: Seq<char>| missing_at(rs, ss, a) implies #[trigger] issue_addrs(missing@).contains(a) by {
                    assert(exp.spec_has(a) == (plan_last(rs, a) is Some));
                    assert(act.spec_has(a) == (state_last(ss, a) is Some));
                }
            }
            assert(mismatch_part(mismatched@, rs, ss)) by {
                assert forall|k: int| 0 <= k < mismatched@.len() implies {
                    let v = (#[trigger] mismatched@[k])@;
                    &&& v matches IssueView::TypeMismatch { address, expected_type, actual_type }
                    &&& mismatch_at(rs, ss, issue_address(v))
                    &&& v->TypeMismatch_expected_type == rs[plan_last(rs, issue_address(v))->0].target_type@
                    &&& v->TypeMismatch_actual_type == ss[state_last(ss, issue_address(v))->0].resource_type@
                } by {
                    let a = issue_address(mismatched@[k]@);
                    assert(opt_int(exp.spec_get(a)) == plan_last(rs, a));
                    assert(opt_int(act.spec_get(a)) == state_last(ss, a));
                    assert(ss[act.spec_get(a)->0 as int] == *actual@[act.spec_get(a)->0 as int]);
                }
                assert forall|a: Seq<char>| mismatch_at(rs, ss, a) implies #[trigger] issue_addrs(mismatched@).contains(a) by {
                    assert(opt_int(exp.spec_get(a)) == plan_last(rs, a));
                    assert(opt_int(act.spec_get(a)) == state_last(ss, a));
                    lemma_state_last_bound(ss, a);
                    assert(ss[act.spec_get(a)->0 as int] == *actual@[act.spec_get(a)->0 as int]);
                    assert(types_differ(exp, act, rs, deref_all(actual@), a));
                }
            }
            assert(extra_part(extras@, rs, ss)) by {
                assert forall|k: int| 0 <= k < extras@.len() implies {
                    let a = warning_addrs(extras@)[k];
                    &&& extra_at(rs, ss, a)
                    &&& (#[trigger] extras@[k]) matches VerifierWarning::ExtraResource { address, resource_type }
                        && resource_type@ == ss[state_last(ss, a)->0].resource_type@
                } by {
                    let a = warning_addrs(extras@)[k];
                    assert(opt_int(act.spec_get(a)) == state_last(ss, a));
                    assert(exp.spec_has(a) == (plan_last(rs, a) is Some));
                    assert(ss[act.spec_get(a)->0 as int] == *actual@[act.spec_get(a)->0 as int]);
                }
                assert forall|a: Seq<char>| extra_at(rs, ss, a) implies #[trigger] warning_addrs(extras@).contains(a) by {
                    assert(exp.spec_has(a) == (plan_last(rs, a) is Some));
                    assert(act.spec_has(a) == (state_last(ss, a) is Some));
                }
            }
        }
        let k = missing.len();
        let mut errors = missing;
        let mut tail = mismatched;
        let ghost mm = tail@;
        let ghost ms = errors@;
        errors.append(&mut tail);
        proof {
            assert(errors@.take(k as int) =~= ms);
            assert(errors@.skip(k as int) =~= mm);
            assert(missing_part(errors@.take(k as int), rs, ss));
        }
        let report = VerifierReport::new(plan.run_id, plan.resources.len(), actual.len(), errors, extras);
        proof {
            assert(report.actual_count == ss.len());
            assert(missing_part(report.errors@.take(k as int), rs, ss));
        }
        Ok(report)
    }
}

} // verus!
