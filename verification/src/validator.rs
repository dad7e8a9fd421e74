//! The schema gate between the Mapper and the Generator: every mapped
//! resource is checked against the target provider's schema, and every
//! finding is collected (never fail-fast).
use vstd::prelude::*;
use crate::mapper::{AttributeValue, MappedResource, MappingPlan};
use crate::strmap::{StrMap, has_key};
use crate::text::owned;

verus! {

/// One attribute of a provider resource schema.
pub struct AttributeSchema {
    pub name: String,
    pub attribute_type: String,
    pub required: bool,
    pub optional: bool,
    pub computed: bool,
    pub sensitive: bool,
    /// The provider version since which the attribute is deprecated.
    pub deprecated: Option<String>,
    pub description: Option<String>,
}

/// The schema of one resource type.
pub struct ResourceSchema {
    pub name: String,
    pub description: Option<String>,
    /// Attributes by name, in name order.
    pub attributes: StrMap<AttributeSchema>,
}

/// The schema of one provider version.
pub struct ProviderSchema {
    pub provider: String,
    pub version: String,
    /// Resource types by name, in name order.
    pub resources: StrMap<ResourceSchema>,
}

/// Blocking findings: the migration cannot proceed.
#[derive(Debug)]
pub enum ValidationError {
    /// The plan uses a `target_type` the schema does not have.
    UnknownResourceType { addr: String, target_type: String },
    /// The plan sets an attribute the resource schema does not have.
    UnknownAttribute { addr: String, attr: String, target_type: String },
    /// The plan omits an attribute the schema marks required.
    MissingRequiredAttribute { addr: String, attr: String, target_type: String },
}

/// A `ValidationError` with its strings taken by value.
pub enum ErrorView {
    UnknownResourceType { addr: Seq<char>, target_type: Seq<char> },
    UnknownAttribute { addr: Seq<char>, attr: Seq<char>, target_type: Seq<char> },
    MissingRequiredAttribute { addr: Seq<char>, attr: Seq<char>, target_type: Seq<char> },
}

impl View for ValidationError {
    type V = ErrorView;

    open spec fn view(&self) -> ErrorView {
        match self {
            ValidationError::UnknownResourceType { addr, target_type } => ErrorView::UnknownResourceType {
                addr: addr@,
                target_type: target_type@,
            },
            ValidationError::UnknownAttribute { addr, attr, target_type } => ErrorView::UnknownAttribute {
                addr: addr@,
                attr: attr@,
                target_type: target_type@,
            },
            ValidationError::MissingRequiredAttribute { addr, attr, target_type } => ErrorView::MissingRequiredAttribute {
                addr: addr@,
                attr: attr@,
                target_type: target_type@,
            },
        }
    }
}

/// The display text of a validation error.
pub open spec fn error_text(e: ErrorView) -> Seq<char> {
    match e {
        ErrorView::UnknownResourceType { addr, target_type } => "Article III violation: '"@ + addr
            + "' uses unknown target_type '"@ + target_type
            + "' (Mapper hallucinated a resource that doesn't exist in the target schema)"@,
        ErrorView::UnknownAttribute { addr, attr, target_type } => "Article III violation: '"@ + addr
            + "' (target_type='"@ + target_type + "') sets unknown attribute '"@ + attr
            + "' (Mapper hallucinated an attribute that doesn't exist in the schema)"@,
        ErrorView::MissingRequiredAttribute { addr, attr, target_type } => "Article IV violation: '"@
            + addr + "' (target_type='"@ + target_type + "') is missing required attribute '"@ + attr
            + "'"@,
    }
}

impl ValidationError {
    /// The display text of this error.
    pub fn message(&self) -> (r: String)
        ensures
            r@ == error_text(self@),
    {
        match self {
            ValidationError::UnknownResourceType { addr, target_type } => {
                let mut s = owned("Article III violation: '");
                s.append(addr.as_str());
                s.append("' uses unknown target_type '");
                s.append(target_type.as_str());
                s.append("' (Mapper hallucinated a resource that doesn't exist in the target schema)");
                s
            },
            ValidationError::UnknownAttribute { addr, attr, target_type } => {
                let mut s = owned("Article III violation: '");
                s.append(addr.as_str());
                s.append("' (target_type='");
                s.append(target_type.as_str());
                s.append("') sets unknown attribute '");
                s.append(attr.as_str());
                s.append("' (Mapper hallucinated an attribute that doesn't exist in the schema)");
                s
            },
            ValidationError::MissingRequiredAttribute { addr, attr, target_type } => {
                let mut s = owned("Article IV violation: '");
                s.append(addr.as_str());
                s.append("' (target_type='");
                s.append(target_type.as_str());
                s.append("') is missing required attribute '");
                s.append(attr.as_str());
                s.append("'");
                s
            },
        }
    }

    /// A copy of this error.
    pub fn duplicate(&self) -> (r: ValidationError)
        ensures
            r@ == self@,
    {
        match self {
            ValidationError::UnknownResourceType { addr, target_type } => ValidationError::UnknownResourceType {
                addr: addr.clone(),
                target_type: target_type.clone(),
            },
            ValidationError::UnknownAttribute { addr, attr, target_type } => ValidationError::UnknownAttribute {
                addr: addr.clone(),
                attr: attr.clone(),
                target_type: target_type.clone(),
            },
            ValidationError::MissingRequiredAttribute { addr, attr, target_type } => ValidationError::MissingRequiredAttribute {
                addr: addr.clone(),
                attr: attr.clone(),
                target_type: target_type.clone(),
            },
        }
    }
}

/// Non-blocking findings: surfaced, but they do not fail the run.
#[derive(Debug)]
pub enum ValidationWarning {
    /// The attribute is deprecated since the given provider version.
    DeprecatedAttribute { addr: String, attr: String, since: String },
    /// The attribute is computed and not optional, that is read-only.
    SetComputedAttribute { addr: String, attr: String, target_type: String },
}

/// A `ValidationWarning` with its strings taken by value.
pub enum WarningView {
    DeprecatedAttribute { addr: Seq<char>, attr: Seq<char>, since: Seq<char> },
    SetComputedAttribute { addr: Seq<char>, attr: Seq<char>, target_type: Seq<char> },
}

impl View for ValidationWarning {
    type V = WarningView;

    open spec fn view(&self) -> WarningView {
        match self {
            ValidationWarning::DeprecatedAttribute { addr, attr, since } => WarningView::DeprecatedAttribute {
                addr: addr@,
                attr: attr@,
                since: since@,
            },
            ValidationWarning::SetComputedAttribute { addr, attr, target_type } => WarningView::SetComputedAttribute {
                addr: addr@,
                attr: attr@,
                target_type: target_type@,
            },
        }
    }
}

/// The display text of a validation warning.
pub open spec fn warning_text(w: WarningView) -> Seq<char> {
    match w {
        WarningView::DeprecatedAttribute { addr, attr, since } => "deprecated: '"@ + addr
            + "' sets attribute '"@ + attr + "' (deprecated since: "@ + since + ")"@,
        WarningView::SetComputedAttribute { addr, attr, target_type } => "computed: '"@ + addr
            + "' (target_type='"@ + target_type + "') sets read-only attribute '"@ + attr
            + "' — value will be ignored by terraform"@,
    }
}

impl ValidationWarning {
    /// The display text of this warning.
    pub fn message(&self) -> (r: String)
        ensures
            r@ == warning_text(self@),
    {
        match self {
            ValidationWarning::DeprecatedAttribute { addr, attr, since } => {
                let mut s = owned("deprecated: '");
                s.append(addr.as_str());
                s.append("' sets attribute '");
                s.append(attr.as_str());
                s.append("' (deprecated since: ");
                s.append(since.as_str());
                s.append(")");
                s
            },
            ValidationWarning::SetComputedAttribute { addr, attr, target_type } => {
                let mut s = owned("computed: '");
                s.append(addr.as_str());
                s.append("' (target_type='");
                s.append(target_type.as_str());
                s.append("') sets read-only attribute '");
                s.append(attr.as_str());
                s.append("' — value will be ignored by terraform");
                s
            },
        }
    }
}

/// The views of a sequence of errors.
pub open spec fn errors_view(v: Seq<ValidationError>) -> Seq<ErrorView> {
    v.map_values(|e: ValidationError| e@)
}

/// The views of a sequence of warnings.
pub open spec fn warnings_view(v: Seq<ValidationWarning>) -> Seq<WarningView> {
    v.map_values(|w: ValidationWarning| w@)
}

/// What `validate` returns: every finding, errors and warnings apart.
#[derive(Debug)]
pub struct ValidationReport {
    /// `true` iff `errors` is empty; warnings never flip it.
    pub passed: bool,
    pub errors: Vec<ValidationError>,
    pub warnings: Vec<ValidationWarning>,
}

impl ValidationReport {
    /// A report over the collected findings; `passed` is derived.
    pub fn new(errors: Vec<ValidationError>, warnings: Vec<ValidationWarning>) -> (r: Self)
        ensures
            r.passed == (errors@.len() == 0),
            r.errors == errors,
            r.warnings == warnings,
    {
        let passed = errors.len() == 0;
        ValidationReport { passed, errors, warnings }
    }
}

/// Errors found among the set attributes `keys` of a resource whose type
/// has schema `rs`: each attribute the schema lacks, in key order.
pub open spec fn attr_errors(
    keys: Seq<(Seq<char>, AttributeValue)>,
    rs: ResourceSchema,
    addr: Seq<char>,
    tt: Seq<char>,
) -> Seq<ErrorView>
    decreases keys.len(),
{
    if keys.len() == 0 {
        Seq::empty()
    } else {
        let prev = attr_errors(keys.drop_last(), rs, addr, tt);
        let k = keys.last().0;
        match rs.attributes.spec_get(k) {
            None => prev.push(ErrorView::UnknownAttribute { addr, attr: k, target_type: tt }),
            Some(_) => prev,
        }
    }
}

/// The warnings one known attribute gives: deprecated first, then
/// read-only.
pub open spec fn known_attr_warnings(
    a: AttributeSchema,
    addr: Seq<char>,
    k: Seq<char>,
    tt: Seq<char>,
) -> Seq<WarningView> {
    let d = match a.deprecated {
        Some(since) => seq![WarningView::DeprecatedAttribute { addr, attr: k, since: since@ }],
        None => Seq::empty(),
    };
    let c = if a.computed && !a.optional {
        seq![WarningView::SetComputedAttribute { addr, attr: k, target_type: tt }]
    } else {
        Seq::empty()
    };
    d + c
}

/// Warnings found among the set attributes `keys`, in key order.
pub open spec fn attr_warnings(
    keys: Seq<(Seq<char>, AttributeValue)>,
    rs: ResourceSchema,
    addr: Seq<char>,
    tt: Seq<char>,
) -> Seq<WarningView>
    decreases keys.len(),
{
    if keys.len() == 0 {
        Seq::empty()
    } else {
        let prev = attr_warnings(keys.drop_last(), rs, addr, tt);
        let k = keys.last().0;
        match rs.attributes.spec_get(k) {
            None => prev,
            Some(a) => prev + known_attr_warnings(a, addr, k, tt),
        }
    }
}

/// Required schema attributes (among `entries`, in name order) that the
/// resource's attributes `set` lack.
pub open spec fn required_errors(
    entries: Seq<(Seq<char>, AttributeSchema)>,
    set: StrMap<AttributeValue>,
    addr: Seq<char>,
    tt: Seq<char>,
) -> Seq<ErrorView>
    decreases entries.len(),
{
    if entries.len() == 0 {
        Seq::empty()
    } else {
        let prev = required_errors(entries.drop_last(), set, addr, tt);
        let (name, a) = entries.last();
        if a.required && !set.spec_has(name) {
            prev.push(ErrorView::MissingRequiredAttribute { addr, attr: name, target_type: tt })
        } else {
            prev
        }
    }
}

/// All errors for one resource.
pub open spec fn resource_errors(r: MappedResource, schema: ProviderSchema) -> Seq<ErrorView> {
    match schema.resources.spec_get(r.target_type@) {
        None => seq![ErrorView::UnknownResourceType { addr: r.target_addr@, target_type: r.target_type@ }],
        Some(rs) => attr_errors(r.attributes@, rs, r.target_addr@, r.target_type@) + required_errors(
            rs.attributes@,
            r.attributes,
            r.target_addr@,
            r.target_type@,
        ),
    }
}

/// All warnings for one resource.
pub open spec fn resource_warnings(r: MappedResource, schema: ProviderSchema) -> Seq<WarningView> {
    match schema.resources.spec_get(r.target_type@) {
        None => Seq::empty(),
        Some(rs) => attr_warnings(r.attributes@, rs, r.target_addr@, r.target_type@),
    }
}

/// All errors for the resources `rs`, resource by resource in plan order.
pub open spec fn plan_errors(rs: Seq<MappedResource>, schema: ProviderSchema) -> Seq<ErrorView>
    decreases rs.len(),
{
    if rs.len() == 0 {
        Seq::empty()
    } else {
        plan_errors(rs.drop_last(), schema) + resource_errors(rs.last(), schema)
    }
}

/// All warnings for the resources `rs`, in plan order.
pub open spec fn plan_warnings(rs: Seq<MappedResource>, schema: ProviderSchema) -> Seq<WarningView>
    decreases rs.len(),
{
    if rs.len() == 0 {
        Seq::empty()
    } else {
        plan_warnings(rs.drop_last(), schema) + resource_warnings(rs.last(), schema)
    }
}

fn push_error(v: &mut Vec<ValidationError>, e: ValidationError)
    ensures
        errors_view(final(v)@) == errors_view(old(v)@).push(e@),
{
    let ghost before = v@;
    let ghost ev = e@;
    v.push(e);
    assert(errors_view(v@) =~= errors_view(before).push(ev));
}

fn push_warning(v: &mut Vec<ValidationWarning>, w: ValidationWarning)
    ensures
        warnings_view(final(v)@) == warnings_view(old(v)@).push(w@),
{
    let ghost before = v@;
    let ghost wv = w@;
    v.push(w);
    assert(warnings_view(v@) =~= warnings_view(before).push(wv));
}

/// Checks `r` against the resource schema `rs`, appending its findings.
fn check_resource(
    r: &MappedResource,
    rs: &ResourceSchema,
    errors: &mut Vec<ValidationError>,
    warnings: &mut Vec<ValidationWarning>,
)
    ensures
        errors_view(final(errors)@) == errors_view(old(errors)@) + attr_errors(
            r.attributes@,
            *rs,
            r.target_addr@,
            r.target_type@,
        ) + required_errors(rs.attributes@, r.attributes, r.target_addr@, r.target_type@),
        warnings_view(final(warnings)@) == warnings_view(old(warnings)@) + attr_warnings(
            r.attributes@,
            *rs,
            r.target_addr@,
            r.target_type@,
        ),
{
    let ghost e0 = errors_view(errors@);
    let ghost w0 = warnings_view(warnings@);
    let ghost addr = r.target_addr@;
    let ghost tt = r.target_type@;
    let ghost keys = r.attributes@;
    let n = r.attributes.len();
    let mut j: usize = 0;
    while j < n
        invariant
            n == keys.len(),
            keys == r.attributes@,
            addr == r.target_addr@,
            tt == r.target_type@,
            j <= n,
            errors_view(errors@) == e0 + attr_errors(keys.take(j as int), *rs, addr, tt),
            warnings_view(warnings@) == w0 + attr_warnings(keys.take(j as int), *rs, addr, tt),
        decreases n - j,
    {
        let k = r.attributes.key_at(j);
        proof {
            assert(keys.take(j + 1).drop_last() =~= keys.take(j as int));
            assert(keys.take(j + 1).last() == keys[j as int]);
        }
        match rs.attributes.get(k.as_str()) {
            None => {
                push_error(
                    errors,
                    ValidationError::UnknownAttribute {
                        addr: r.target_addr.clone(),
                        attr: k.clone(),
                        target_type: r.target_type.clone(),
                    },
                );
                proof {
                    assert(errors_view(errors@) =~= e0 + attr_errors(keys.take(j + 1), *rs, addr, tt));
                }
            },
            Some(a) => {
                let ghost before = warnings_view(warnings@);
                match &a.deprecated {
                    Some(since) => {
                        push_warning(
                            warnings,
                            ValidationWarning::DeprecatedAttribute {
                                addr: r.target_addr.clone(),
                                attr: k.clone(),
                                since: since.clone(),
                            },
                        );
                    },
                    None => {},
                }
                if a.computed && !a.optional {
                    push_warning(
                        warnings,
                        ValidationWarning::SetComputedAttribute {
                            addr: r.target_addr.clone(),
                            attr: k.clone(),
                            target_type: r.target_type.clone(),
                        },
                    );
                }
                proof {
                    let kw = known_attr_warnings(*a, addr, k@, tt);
                    assert(warnings_view(warnings@) =~= before + kw);
                    assert(warnings_view(warnings@) =~= w0 + attr_warnings(keys.take(j + 1), *rs, addr, tt));
                }
            },
        }
        j = j + 1;
    }
    proof {
        assert(keys.take(n as int) =~= keys);
    }
    let ghost e1 = errors_view(errors@);
    let ghost ents = rs.attributes@;
    let m = rs.attributes.len();
    let mut q: usize = 0;
    while q < m
        invariant
            m == ents.len(),
            ents == rs.attributes@,
            keys == r.attributes@,
            addr == r.target_addr@,
            tt == r.target_type@,
            q <= m,
            errors_view(errors@) == e1 + required_errors(ents.take(q as int), r.attributes, addr, tt),
            warnings_view(warnings@) == w0 + attr_warnings(keys, *rs, addr, tt),
        decreases m - q,
    {
        let name = rs.attributes.key_at(q);
        let a = rs.attributes.value_at(q);
        proof {
            assert(ents.take(q + 1).drop_last() =~= ents.take(q as int));
            assert(ents.take(q + 1).last() == ents[q as int]);
        }
        if a.required && !r.attributes.contains_key(name.as_str()) {
            push_error(
                errors,
                ValidationError::MissingRequiredAttribute {
                    addr: r.target_addr.clone(),
                    attr: name.clone(),
                    target_type: r.target_type.clone(),
                },
            );
        }
        proof {
            assert(errors_view(errors@) =~= e1 + required_errors(ents.take(q + 1), r.attributes, addr, tt));
        }
        q = q + 1;
    }
    proof {
        assert(ents.take(m as int) =~= ents);
    }
}

/// Checks every mapped resource against `schema` (the target provider's
/// schema at the target version) and collects every finding: per
/// resource, in plan order, an unknown type (and nothing more for it), or
/// the attributes the schema lacks in key order, then the missing required
/// attributes in schema order; warnings for deprecated and read-only
/// attributes that are set. The report passes iff there is no error.
pub fn validate_against_schema(plan: &MappingPlan, schema: &ProviderSchema) -> (r: ValidationReport)
    ensures
        errors_view(r.errors@) == plan_errors(plan.resources@, *schema),
        warnings_view(r.warnings@) == plan_warnings(plan.resources@, *schema),
        r.passed == (plan_errors(plan.resources@, *schema).len() == 0),
{
    let mut errors: Vec<ValidationError> = Vec::new();
    let mut warnings: Vec<ValidationWarning> = Vec::new();
    let ghost rs_all = plan.resources@;
    let mut i: usize = 0;
    proof {
        assert(errors_view(errors@) =~= Seq::<ErrorView>::empty());
        assert(warnings_view(warnings@) =~= Seq::<WarningView>::empty());
        assert(rs_all.take(0) =~= Seq::<MappedResource>::empty());
    }
    while i < plan.resources.len()
        invariant
            rs_all == plan.resources@,
            i <= rs_all.len(),
            errors_view(errors@) == plan_errors(rs_all.take(i as int), *schema),
            warnings_view(warnings@) == plan_warnings(rs_all.take(i as int), *schema),
        decreases rs_all.len() - i,
    {
        let r = &plan.resources[i];
        proof {
            assert(rs_all.take(i + 1).drop_last() =~= rs_all.take(i as int));
            assert(rs_all.take(i + 1).last() == rs_all[i as int]);
        }
        match schema.resources.get(r.target_type.as_str()) {
            None => {
                push_error(
                    &mut errors,
                    ValidationError::UnknownResourceType {
                        addr: r.target_addr.clone(),
                        target_type: r.target_type.clone(),
                    },
                );
                proof {
                    assert(errors_view(errors@) =~= plan_errors(rs_all.take(i + 1), *schema));
                    assert(warnings_view(warnings@) =~= plan_warnings(rs_all.take(i + 1), *schema));
                }
            },
            Some(rs) => {
                check_resource(r, rs, &mut errors, &mut warnings);
                proof {
                    assert(errors_view(errors@) =~= plan_errors(rs_all.take(i + 1), *schema));
                    assert(warnings_view(warnings@) =~= plan_warnings(rs_all.take(i + 1), *schema));
                }
            },
        }
        i = i + 1;
    }
    proof {
        assert(rs_all.take(rs_all.len() as int) =~= rs_all);
    }
    ValidationReport::new(errors, warnings)
}



/// Whether the resource schema `rs` marks the attribute `k` read-only:
/// computed by the provider and not optional, so the caller may not set it.
pub open spec fn attr_read_only(rs: ResourceSchema, k: Seq<char>) -> bool {
    match rs.attributes.spec_get(k) {
        Some(a) => a.computed && !a.optional,
        None => false,
    }
}

/// Whether the schema of type `tt` marks the attribute `k` read-only.
pub open spec fn type_attr_read_only(schema: ProviderSchema, tt: Seq<char>, k: Seq<char>) -> bool {
    match schema.resources.spec_get(tt) {
        Some(rs) => attr_read_only(rs, k),
        None => false,
    }
}

/// Whether `w` is a read-only warning for `attr` of the resource at `addr`
/// of type `tt`.
pub open spec fn is_read_only_warning(w: WarningView, addr: Seq<char>, attr: Seq<char>, tt: Seq<char>) -> bool {
    w == WarningView::SetComputedAttribute { addr, attr, target_type: tt }
}

proof fn lemma_attr_warnings_sound(keys: Seq<(Seq<char>, AttributeValue)>, rs: ResourceSchema, addr: Seq<char>, tt: Seq<char>)
    ensures
        forall|i: int, a2: Seq<char>, attr: Seq<char>, t2: Seq<char>|
            0 <= i < attr_warnings(keys, rs, addr, tt).len() && #[trigger] is_read_only_warning(attr_warnings(keys, rs, addr, tt)[i],
                a2,
                attr,
                t2,
            ) ==> a2 == addr && t2 == tt && has_key(keys, attr) && attr_read_only(rs, attr),
    decreases keys.len(),
{
    if keys.len() > 0 {
        let p = keys.drop_last();
        lemma_attr_warnings_sound(p, rs, addr, tt);
        let prev = attr_warnings(p, rs, addr, tt);
        let k = keys.last().0;
        let w = attr_warnings(keys, rs, addr, tt);
        assert forall|i: int, a2: Seq<char>, attr: Seq<char>, t2: Seq<char>|
            0 <= i < w.len() && #[trigger] is_read_only_warning(w[i], a2, attr, t2) implies a2 == addr && t2 == tt
            && has_key(keys, attr) && attr_read_only(rs, attr) by {
            if i < prev.len() {
                assert(w[i] == prev[i]);
                let j = choose|j: int| 0 <= j < p.len() && #[trigger] p[j].0 == attr;
                assert(keys[j].0 == attr);
            } else {
                assert(keys[keys.len() - 1].0 == k);
            }
        }
    }
}

proof fn lemma_attr_warnings_complete(keys: Seq<(Seq<char>, AttributeValue)>, rs: ResourceSchema, addr: Seq<char>, tt: Seq<char>, k: Seq<char>)
    requires
        has_key(keys, k),
        attr_read_only(rs, k),
    ensures
        attr_warnings(keys, rs, addr, tt).contains(WarningView::SetComputedAttribute { addr, attr: k, target_type: tt }),
    decreases keys.len(),
{
    let p = keys.drop_last();
    let w = attr_warnings(keys, rs, addr, tt);
    let target = WarningView::SetComputedAttribute { addr, attr: k, target_type: tt };
    if keys.last().0 == k {
        let sa = rs.attributes.spec_get(k)->0;
        let kw = known_attr_warnings(sa, addr, k, tt);
        assert(w == attr_warnings(p, rs, addr, tt) + kw);
        assert(kw[kw.len() - 1] == target);
        assert(w[w.len() - 1] == target);
    } else {
        let j = choose|j: int| 0 <= j < keys.len() && #[trigger] keys[j].0 == k;
        assert(p[j].0 == k);
        lemma_attr_warnings_complete(p, rs, addr, tt, k);
        let prev = attr_warnings(p, rs, addr, tt);
        let i = choose|i: int| 0 <= i < prev.len() && prev[i] == target;
        assert(w[i] == prev[i]);
    }
}

proof fn lemma_plan_warnings_sound(rs: Seq<MappedResource>, schema: ProviderSchema)
    ensures
        forall|i: int, addr: Seq<char>, attr: Seq<char>, tt: Seq<char>|
            0 <= i < plan_warnings(rs, schema).len() && #[trigger] is_read_only_warning(plan_warnings(rs, schema)[i],
                addr,
                attr,
                tt,
            ) ==> exists|k: int|
                0 <= k < rs.len() && (#[trigger] rs[k]).target_addr@ == addr && rs[k].target_type@ == tt
                    && rs[k].attributes.spec_has(attr) && type_attr_read_only(schema, tt, attr),
    decreases rs.len(),
{
    if rs.len() > 0 {
        let p = rs.drop_last();
        lemma_plan_warnings_sound(p, schema);
        let r = rs.last();
        let prev = plan_warnings(p, schema);
        let w = plan_warnings(rs, schema);
        let rw = resource_warnings(r, schema);
        assert(w == prev + rw);
        match schema.resources.spec_get(r.target_type@) {
            Some(rsch) => lemma_attr_warnings_sound(r.attributes@, rsch, r.target_addr@, r.target_type@),
            None => {},
        }
        assert forall|i: int, addr: Seq<char>, attr: Seq<char>, tt: Seq<char>|
            0 <= i < w.len() && #[trigger] is_read_only_warning(w[i], addr, attr, tt) implies exists|k: int|
            0 <= k < rs.len() && (#[trigger] rs[k]).target_addr@ == addr && rs[k].target_type@ == tt
                && rs[k].attributes.spec_has(attr) && type_attr_read_only(schema, tt, attr) by {
            if i < prev.len() {
                assert(w[i] == prev[i]);
                let k = choose|k: int|
                    0 <= k < p.len() && (#[trigger] p[k]).target_addr@ == addr && p[k].target_type@ == tt
                        && p[k].attributes.spec_has(attr) && type_attr_read_only(schema, tt, attr);
                assert(rs[k] == p[k]);
            } else {
                assert(w[i] == rw[i - prev.len()]);
                assert(rs[rs.len() - 1] == r);
            }
        }
    }
}

proof fn lemma_plan_warnings_complete(rs: Seq<MappedResource>, schema: ProviderSchema, k: int, attr: Seq<char>)
    requires
        0 <= k < rs.len(),
        rs[k].attributes.spec_has(attr),
        type_attr_read_only(schema, rs[k].target_type@, attr),
    ensures
        plan_warnings(rs, schema).contains(
            WarningView::SetComputedAttribute { addr: rs[k].target_addr@, attr, target_type: rs[k].target_type@ },
        ),
    decreases rs.len(),
{
    let p = rs.drop_last();
    let w = plan_warnings(rs, schema);
    let prev = plan_warnings(p, schema);
    let target = WarningView::SetComputedAttribute { addr: rs[k].target_addr@, attr, target_type: rs[k].target_type@ };
    assert(w == prev + resource_warnings(rs.last(), schema));
    if k == rs.len() - 1 {
        let rsch = schema.resources.spec_get(rs[k].target_type@)->0;
        lemma_attr_warnings_complete(rs[k].attributes@, rsch, rs[k].target_addr@, rs[k].target_type@, attr);
        let rw = resource_warnings(rs.last(), schema);
        let i = choose|i: int| 0 <= i < rw.len() && rw[i] == target;
        assert(w[prev.len() + i] == target);
    } else {
        assert(p[k] == rs[k]);
        lemma_plan_warnings_complete(p, schema, k, attr);
        let i = choose|i: int| 0 <= i < prev.len() && prev[i] == target;
        assert(w[i] == prev[i]);
    }
}

/// The read-only warnings of a validation report are exactly the set
/// attributes that the schema marks computed and not optional: each
/// `SetComputedAttribute` warning names a planned resource that sets that
/// attribute, whose type's schema marks it computed and not optional (an
/// optional computed attribute may be set and gets no such warning); and
/// every such attribute that a planned resource sets is warned of.
pub proof fn law_read_only_warnings(plan: MappingPlan, schema: ProviderSchema, report: ValidationReport)
    requires
        errors_view(report.errors@) == plan_errors(plan.resources@, schema),
        warnings_view(report.warnings@) == plan_warnings(plan.resources@, schema),
        report.passed == (plan_errors(plan.resources@, schema).len() == 0),
    ensures
        forall|i: int, addr: Seq<char>, attr: Seq<char>, tt: Seq<char>|
            0 <= i < report.warnings@.len() && #[trigger] is_read_only_warning(report.warnings@[i]@, addr, attr, tt)
                ==> exists|k: int|
                0 <= k < plan.resources@.len() && (#[trigger] plan.resources@[k]).target_addr@ == addr
                    && plan.resources@[k].target_type@ == tt && plan.resources@[k].attributes.spec_has(attr)
                    && type_attr_read_only(schema, tt, attr),
        forall|k: int, attr: Seq<char>|
            0 <= k < plan.resources@.len() && (#[trigger] plan.resources@[k]).attributes.spec_has(attr)
                && #[trigger] type_attr_read_only(schema, plan.resources@[k].target_type@, attr)
                ==> warnings_view(report.warnings@).contains(
                WarningView::SetComputedAttribute {
                    addr: plan.resources@[k].target_addr@,
                    attr,
                    target_type: plan.resources@[k].target_type@,
                },
            ),
{
    let rs = plan.resources@;
    lemma_plan_warnings_sound(rs, schema);
    assert forall|i: int, addr: Seq<char>, attr: Seq<char>, tt: Seq<char>|
        0 <= i < report.warnings@.len() && #[trigger] is_read_only_warning(report.warnings@[i]@, addr, attr, tt)
        implies exists|k: int|
        0 <= k < rs.len() && (#[trigger] rs[k]).target_addr@ == addr && rs[k].target_type@ == tt
            && rs[k].attributes.spec_has(attr) && type_attr_read_only(schema, tt, attr) by {
        assert(warnings_view(report.warnings@)[i] == report.warnings@[i]@);
        assert(plan_warnings(rs, schema)[i] == report.warnings@[i]@);
    }
    assert forall|k: int, attr: Seq<char>|
        0 <= k < rs.len() && (#[trigger] rs[k]).attributes.spec_has(attr)
            && #[trigger] type_attr_read_only(schema, rs[k].target_type@, attr)
        implies warnings_view(report.warnings@).contains(
        WarningView::SetComputedAttribute { addr: rs[k].target_addr@, attr, target_type: rs[k].target_type@ },
    ) by {
        lemma_plan_warnings_complete(rs, schema, k, attr);
    }
}

} // verus!
