//! The Generator: deterministic HCL emission of a validated plan. Each
//! mapped resource becomes a `resource "type" "name"` block built by its
//! type's template; blocks are grouped one file per target type, in
//! address order.
use vstd::prelude::*;
use crate::mapper::{AttributeValue, MappedResource, MappingPlan, MapperLookupError};
use crate::strmap::StrMap;
use crate::text::{owned, str_eq, chars_of, string_from_chars, push_char, join_path, path_join, append_decimal, decimal};
use crate::mapper::{uuid_string, uuid_text};
use crate::scanner::str_views;
use crate::validator::{AttributeSchema, ProviderSchema, ResourceSchema};
use crate::strmap::{sorted_keys, lemma_lookup_at};
use crate::text::{seq_lt, str_lt, lemma_seq_lt_irreflexive, lemma_seq_lt_transitive, lemma_seq_lt_total, lemma_seq_lt_asymmetric};

verus! {

/// An HCL expression, as the Generator emits it.
#[derive(Debug)]
pub enum HclExpr {
    /// A quoted string literal.
    Str(String),
    /// A number: the bits of its IEEE-754 double.
    Number(u64),
    Bool(bool),
    /// A raw traversal `head.attr1.attr2...` (a bare variable when
    /// `attrs` is empty).
    Ref { head: String, attrs: Vec<String> },
    Array(Vec<HclExpr>),
    /// An object; keys are emitted as identifiers (sanitized by hcl-rs).
    Object(Vec<(String, HclExpr)>),
}

/// `resource "target_type" "name" { attributes }`
#[derive(Debug)]
pub struct ResourceBlock {
    pub target_type: String,
    pub name: String,
    /// Attributes in emission order.
    pub attributes: Vec<(String, HclExpr)>,
}

/// Errors while backing up or restoring a file.
#[derive(Debug)]
pub enum BackupError {
    /// The file to back up does not exist.
    SourceMissing(String),
    /// The backup directory could not be created (the error's text).
    CreateDir { path: String, message: String },
    /// Moving the file failed.
    Move { src: String, dst: String, message: String },
    /// Restoring the file failed.
    Restore { src: String, dst: String, message: String },
}

/// Failures of the Generator.
#[derive(Debug)]
pub enum GeneratorError {
    /// No template is registered for the target type.
    TemplateMiss { target_type: String },
    /// hcl-rs refused an identifier or the serialization (its message).
    Hcl(String),
    /// A file operation failed.
    Io { path: String, message: String },
    Backup(BackupError),
    Audit(String),
    /// The output path is not a directory.
    InvalidOutputDir(String),
    /// A required attribute is missing or mistyped.
    Lookup(MapperLookupError),
    /// A reference is empty or starts with a dot.
    EmptyReference,
    /// Some files failed to restore during rollback.
    RollbackPartial { total: usize, failures: usize, details: Vec<String> },
}

/// Whether `e` is the template-miss error for `tt`.
pub open spec fn is_template_miss(e: GeneratorError, tt: Seq<char>) -> bool {
    e matches GeneratorError::TemplateMiss { target_type } && target_type@ == tt
}

/// hcl-rs's verdict on `s` as an identifier (`hcl::Identifier::new`):
/// `None` when valid, else its error's display text.
pub uninterp spec fn hcl_ident_check(s: Seq<char>) -> Option<Seq<char>>;

/// Checks `s` as an HCL identifier.
///
/// Trusted: calls `hcl::Identifier::new`, which accepts a non-empty
/// identifier of HCL's identifier characters; the contract names its
/// verdict, and states only that the empty string is refused.
#[verifier::external_body]
fn check_identifier(s: &str) -> (r: Option<String>)
    ensures
        s@.len() == 0 ==> r is Some,
        match r {
            None => hcl_ident_check(s@) is None,
            Some(m) => hcl_ident_check(s@) == Some(m@),
        },
{
    match hcl::Identifier::new(s) {
        Ok(_) => None,
        Err(e) => Some(e.to_string()),
    }
}

/// The pieces of `s` between dots, as `str::split('.')` gives them.
pub open spec fn split_dots(s: Seq<char>) -> Seq<Seq<char>>
    decreases s.len(),
{
    if s.len() == 0 {
        seq![Seq::empty()]
    } else {
        let p = split_dots(s.drop_last());
        if s.last() == '.' {
            p.push(Seq::empty())
        } else {
            p.update(p.len() - 1, p.last().push(s.last()))
        }
    }
}

proof fn lemma_split_dots_nonempty(s: Seq<char>)
    ensures
        split_dots(s).len() >= 1,
    decreases s.len(),
{
    if s.len() > 0 {
        lemma_split_dots_nonempty(s.drop_last());
    }
}

/// The first identifier failure among `parts[from..]`.
pub open spec fn first_ident_failure(parts: Seq<Seq<char>>, from: int) -> Option<Seq<char>>
    decreases parts.len() - from,
{
    if from < 0 || from >= parts.len() {
        None
    } else {
        match hcl_ident_check(parts[from]) {
            Some(m) => Some(m),
            None => first_ident_failure(parts, from + 1),
        }
    }
}

/// What a reference text becomes: refused when empty or with an empty
/// first segment; refused with hcl-rs's message for the first segment that
/// is not an identifier; otherwise the traversal of its segments.
pub open spec fn reference_outcome(s: Seq<char>) -> Result<(Seq<char>, Seq<Seq<char>>), Option<Seq<char>>> {
    let parts = split_dots(s);
    if s.len() == 0 || parts[0].len() == 0 {
        Err(None)
    } else {
        match first_ident_failure(parts, 0) {
            Some(m) => Err(Some(m)),
            None => Ok((parts[0], parts.subrange(1, parts.len() as int))),
        }
    }
}

fn split_on_dots(s: &str) -> (r: Vec<String>)
    ensures
        r@.map_values(|x: String| x@) == split_dots(s@),
{
    let cs = chars_of(s);
    let mut parts: Vec<String> = Vec::new();
    let mut cur = String::new();
    let mut i: usize = 0;
    proof {
        assert(cs@.take(0) =~= Seq::<char>::empty());
    }
    while i < cs.len()
        invariant
            cs@ == s@,
            i <= cs@.len(),
            parts@.map_values(|x: String| x@).push(cur@) == split_dots(cs@.take(i as int)),
        decreases cs@.len() - i,
    {
        let c = cs[i];
        let ghost before = parts@.map_values(|x: String| x@).push(cur@);
        proof {
            assert(cs@.take(i + 1).drop_last() =~= cs@.take(i as int));
            assert(cs@.take(i + 1).last() == c);
        }
        if c == '.' {
            let done = cur;
            cur = String::new();
            let ghost dv = done@;
            parts.push(done);
            proof {
                assert(parts@.map_values(|x: String| x@).push(cur@) =~= before.push(Seq::<char>::empty()));
            }
        } else {
            push_char(&mut cur, c);
            proof {
                assert(parts@.map_values(|x: String| x@).push(cur@) =~= before.update(
                    before.len() - 1,
                    before.last().push(c),
                ));
            }
        }
        i = i + 1;
    }
    proof {
        assert(cs@.take(cs@.len() as int) =~= cs@);
    }
    let ghost before = parts@.map_values(|x: String| x@);
    parts.push(cur);
    proof {
        assert(parts@.map_values(|x: String| x@) =~= before.push(cur@));
    }
    parts
}

/// Turns a dotted reference (`aws_vpc.main.id`, `var.region`) into a raw
/// HCL traversal; an empty reference, or one with a leading dot, is a loud
/// error, and a segment hcl-rs does not accept as an identifier is its
/// error.
pub fn parse_reference(s: &str) -> (r: Result<HclExpr, GeneratorError>)
    ensures
        match reference_outcome(s@) {
            Err(None) => r matches Err(GeneratorError::EmptyReference),
            Err(Some(m)) => r matches Err(GeneratorError::Hcl(x)) && x@ == m,
            Ok((head, attrs)) => r matches Ok(HclExpr::Ref { head: h, attrs: a }) && h@ == head && a@.map_values(
                |x: String| x@,
            ) == attrs,
        },
{
    let parts = split_on_dots(s);
    let ghost pv = parts@.map_values(|x: String| x@);
    proof {
        lemma_split_dots_nonempty(s@);
        assert(pv.len() == parts@.len());
        assert(pv[0] == parts@[0]@);
    }
    if s.is_empty() || parts[0].as_str().is_empty() {
        proof {
            if s@.len() != 0 {
                assert(parts@[0]@.len() == 0);
            }
        }
        return Err(GeneratorError::EmptyReference);
    }
    let mut i: usize = 0;
    while i < parts.len()
        invariant
            pv == parts@.map_values(|x: String| x@),
            pv == split_dots(s@),
            s@.len() != 0,
            pv[0].len() != 0,
            i <= parts@.len(),
            first_ident_failure(pv, 0) == first_ident_failure(pv, i as int),
        decreases parts@.len() - i,
    {
        match check_identifier(parts[i].as_str()) {
            Some(m) => {
                proof {
                    assert(pv[i as int] == parts@[i as int]@);
                }
                return Err(GeneratorError::Hcl(m));
            },
            None => {
                proof {
                    assert(pv[i as int] == parts@[i as int]@);
                }
            },
        }
        i = i + 1;
    }
    let mut attrs: Vec<String> = Vec::new();
    let mut j: usize = 1;
    while j < parts.len()
        invariant
            pv == parts@.map_values(|x: String| x@),
            1 <= j <= parts@.len(),
            attrs@.map_values(|x: String| x@) == pv.subrange(1, j as int),
        decreases parts@.len() - j,
    {
        let ghost before = attrs@;
        let c = parts[j].clone();
        let ghost cv = c@;
        attrs.push(c);
        proof {
            assert(pv[j as int] == parts@[j as int]@);
            assert(attrs@ == before.push(c));
            assert(attrs@.map_values(|x: String| x@) =~= before.map_values(|x: String| x@).push(cv));
            assert(attrs@.map_values(|x: String| x@) =~= pv.subrange(1, j + 1));
        }
        j = j + 1;
    }
    Ok(HclExpr::Ref { head: parts[0].clone(), attrs })
}

/// Why an attribute value cannot be emitted.
pub enum ExprFailure {
    EmptyReference,
    Hcl(Seq<char>),
}

/// The failure of a reference text, if any.
pub open spec fn reference_failure(s: Seq<char>) -> Option<ExprFailure> {
    match reference_outcome(s) {
        Err(None) => Some(ExprFailure::EmptyReference),
        Err(Some(m)) => Some(ExprFailure::Hcl(m)),
        Ok(_) => None,
    }
}

/// The first failure in `v` (depth first, in order).
pub open spec fn value_failure(v: AttributeValue) -> Option<ExprFailure>
    decreases v, 1int,
{
    match v {
        AttributeValue::Reference(r) => reference_failure(r@),
        AttributeValue::List(items) => values_failure(items@, 0),
        AttributeValue::Object(entries) => entries_failure(entries@, 0),
        _ => None,
    }
}

/// The first failure among `vs[from..]`.
pub open spec fn values_failure(vs: Seq<AttributeValue>, from: int) -> Option<ExprFailure>
    decreases vs, 0int, vs.len() - from,
{
    if from < 0 || from >= vs.len() {
        None
    } else {
        match value_failure(vs[from]) {
            Some(f) => Some(f),
            None => values_failure(vs, from + 1),
        }
    }
}

/// The first failure among the values of `es[from..]`.
pub open spec fn entries_failure(es: Seq<(String, AttributeValue)>, from: int) -> Option<ExprFailure>
    decreases es, 0int, es.len() - from,
{
    if from < 0 || from >= es.len() {
        None
    } else {
        match value_failure(es[from].1) {
            Some(f) => Some(f),
            None => entries_failure(es, from + 1),
        }
    }
}

/// Whether `e` is the HCL expression for `v`: strings quoted, numbers and
/// booleans native, references as raw traversals, lists and objects
/// element by element.
pub open spec fn value_converts(v: AttributeValue, e: HclExpr) -> bool
    decreases v,
{
    match v {
        AttributeValue::String(s) => e matches HclExpr::Str(t) && t@ == s@,
        AttributeValue::Number(n) => e == HclExpr::Number(n),
        AttributeValue::Bool(b) => e == HclExpr::Bool(b),
        AttributeValue::Reference(r) => match reference_outcome(r@) {
            Ok((head, attrs)) => e matches HclExpr::Ref { head: h, attrs: a } && h@ == head && a@.map_values(
                |x: String| x@,
            ) == attrs,
            Err(_) => false,
        },
        AttributeValue::List(items) => match e {
            HclExpr::Array(out) => out@.len() == items@.len() && forall|i: int|
                0 <= i < items@.len() ==> value_converts(#[trigger] items@[i], out@[i]),
            _ => false,
        },
        AttributeValue::Object(entries) => match e {
            HclExpr::Object(out) => out@.len() == entries@.len() && forall|i: int|
                0 <= i < entries@.len() ==> (#[trigger] out@[i]).0@ == entries@[i].0@ && value_converts(
                    entries@[i].1,
                    out@[i].1,
                ),
            _ => false,
        },
    }
}

/// Whether the error `e` reports the failure `f`.
pub open spec fn reports(e: GeneratorError, f: ExprFailure) -> bool {
    match f {
        ExprFailure::EmptyReference => e is EmptyReference,
        ExprFailure::Hcl(m) => e matches GeneratorError::Hcl(x) && x@ == m,
    }
}

proof fn lemma_values_failure_skip(s: Seq<AttributeValue>, from: int, to: int)
    requires
        0 <= from <= to <= s.len(),
        forall|k: int| from <= k < to ==> value_failure(#[trigger] s[k]) is None,
    ensures
        values_failure(s, from) == values_failure(s, to),
    decreases to - from,
{
    if from < to {
        lemma_values_failure_skip(s, from + 1, to);
    }
}

proof fn lemma_entries_failure_skip(s: Seq<(String, AttributeValue)>, from: int, to: int)
    requires
        0 <= from <= to <= s.len(),
        forall|k: int| from <= k < to ==> value_failure(#[trigger] s[k].1) is None,
    ensures
        entries_failure(s, from) == entries_failure(s, to),
    decreases to - from,
{
    if from < to {
        lemma_entries_failure_skip(s, from + 1, to);
    }
}

/// The HCL expression for an attribute value; a bad reference anywhere in
/// it is refused with the first such failure.
pub fn to_expression(value: &AttributeValue) -> (r: Result<HclExpr, GeneratorError>)
    ensures
        match value_failure(*value) {
            Some(f) => r matches Err(e) && reports(e, f),
            None => r matches Ok(x) && value_converts(*value, x),
        },
    decreases value,
{
    match value {
        AttributeValue::String(s) => Ok(HclExpr::Str(s.clone())),
        AttributeValue::Number(n) => Ok(HclExpr::Number(*n)),
        AttributeValue::Bool(b) => Ok(HclExpr::Bool(*b)),
        AttributeValue::Reference(r) => parse_reference(r.as_str()),
        AttributeValue::List(items) => {
            let mut out: Vec<HclExpr> = Vec::new();
            let mut i: usize = 0;
            while i < items.len()
                invariant
                    *value == AttributeValue::List(*items),
                    i <= items@.len(),
                    out@.len() == i,
                    forall|k: int| 0 <= k < i ==> value_failure(#[trigger] items@[k]) is None,
                    forall|k: int| 0 <= k < i ==> value_converts(#[trigger] items@[k], out@[k]),
                decreases items@.len() - i,
            {
                proof {
                    assert(decreases_to!(*value => items@[i as int]));
                }
                match to_expression(&items[i]) {
                    Ok(e) => {
                        out.push(e);
                    },
                    Err(e) => {
                        proof {
                            lemma_values_failure_skip(items@, 0, i as int);
                        }
                        return Err(e);
                    },
                }
                i = i + 1;
            }
            proof {
                lemma_values_failure_skip(items@, 0, i as int);
            }
            Ok(HclExpr::Array(out))
        },
        AttributeValue::Object(entries) => {
            let mut out: Vec<(String, HclExpr)> = Vec::new();
            let mut i: usize = 0;
            while i < entries.len()
                invariant
                    *value == AttributeValue::Object(*entries),
                    i <= entries@.len(),
                    out@.len() == i,
                    forall|k: int| 0 <= k < i ==> value_failure(#[trigger] entries@[k].1) is None,
                    forall|k: int| 0 <= k < i ==> (#[trigger] out@[k]).0@ == entries@[k].0@ && value_converts(
                        entries@[k].1,
                        out@[k].1,
                    ),
                decreases entries@.len() - i,
            {
                proof {
                    assert(decreases_to!(*value => entries@[i as int].1));
                }
                match to_expression(&entries[i].1) {
                    Ok(e) => {
                        out.push((entries[i].0.clone(), e));
                    },
                    Err(e) => {
                        proof {
                            lemma_entries_failure_skip(entries@, 0, i as int);
                        }
                        return Err(e);
                    },
                }
                i = i + 1;
            }
            proof {
                lemma_entries_failure_skip(entries@, 0, i as int);
            }
            Ok(HclExpr::Object(out))
        },
    }
}

/// One attribute the template asks for: present with its value, or a
/// required one that is missing.
pub enum EmitStep {
    Present(Seq<char>, AttributeValue),
    Missing(Seq<char>),
}

/// The steps for the required keys, in order.
pub open spec fn required_steps(r: MappedResource, req: Seq<Seq<char>>) -> Seq<EmitStep> {
    Seq::new(req.len(), |i: int| match r.attr(req[i]) {
        Some(v) => EmitStep::Present(req[i], v),
        None => EmitStep::Missing(req[i]),
    })
}

/// The steps for the optional keys the resource sets, in order.
pub open spec fn optional_steps(r: MappedResource, opt: Seq<Seq<char>>) -> Seq<EmitStep>
    decreases opt.len(),
{
    if opt.len() == 0 {
        Seq::empty()
    } else {
        let prev = optional_steps(r, opt.drop_last());
        match r.attr(opt.last()) {
            Some(v) => prev.push(EmitStep::Present(opt.last(), v)),
            None => prev,
        }
    }
}

/// The `tags` step: present when the resource's `tags` is a map.
pub open spec fn tags_steps(r: MappedResource) -> Seq<EmitStep> {
    match r.attr("tags"@) {
        Some(AttributeValue::Object(m)) => seq![EmitStep::Present("tags"@, AttributeValue::Object(m))],
        _ => Seq::empty(),
    }
}

/// Every step of a template over `r`: the required keys, the optional
/// keys set, then `tags` when it is a map.
pub open spec fn emit_steps(r: MappedResource, req: Seq<Seq<char>>, opt: Seq<Seq<char>>) -> Seq<EmitStep> {
    required_steps(r, req) + optional_steps(r, opt) + tags_steps(r)
}

/// Why a template cannot emit.
pub enum StepFailure {
    MissingRequired(Seq<char>),
    Expr(ExprFailure),
}

/// The first failing step among `steps[from..]`.
pub open spec fn steps_failure(steps: Seq<EmitStep>, from: int) -> Option<StepFailure>
    decreases steps.len() - from,
{
    if from < 0 || from >= steps.len() {
        None
    } else {
        match steps[from] {
            EmitStep::Missing(k) => Some(StepFailure::MissingRequired(k)),
            EmitStep::Present(_, v) => match value_failure(v) {
                Some(f) => Some(StepFailure::Expr(f)),
                None => steps_failure(steps, from + 1),
            },
        }
    }
}

/// Whether the emitted attribute `a` carries the step `s`.
pub open spec fn emits_step(s: EmitStep, a: (String, HclExpr)) -> bool {
    match s {
        EmitStep::Present(k, v) => a.0@ == k && value_converts(v, a.1),
        EmitStep::Missing(_) => false,
    }
}

/// Whether `e` reports the step failure `f` for the resource at `addr`.
pub open spec fn reports_step(e: GeneratorError, f: StepFailure, addr: Seq<char>) -> bool {
    match f {
        StepFailure::MissingRequired(k) => e matches GeneratorError::Lookup(MapperLookupError::Missing { addr: a, attr })
            && a@ == addr && attr@ == k,
        StepFailure::Expr(x) => reports(e, x),
    }
}

/// Whether `attrs` carry the steps `steps`, one for one.
pub open spec fn emits_steps(steps: Seq<EmitStep>, attrs: Seq<(String, HclExpr)>) -> bool {
    attrs.len() == steps.len() && forall|i: int| 0 <= i < steps.len() ==> emits_step(#[trigger] steps[i], attrs[i])
}

/// The outcome of a template with required keys `req` and optional keys
/// `opt` on `r`.
pub open spec fn block_outcome(r: MappedResource, req: Seq<Seq<char>>, opt: Seq<Seq<char>>, res: Result<ResourceBlock, GeneratorError>) -> bool {
    let steps = emit_steps(r, req, opt);
    match steps_failure(steps, 0) {
        Some(f) => res matches Err(e) && reports_step(e, f, r.target_addr@),
        None => res matches Ok(b) && b.target_type@ == r.target_type@ && b.name@ == r.target_name@
            && emits_steps(steps, b.attributes@),
    }
}

proof fn lemma_steps_failure_skip(s: Seq<EmitStep>, from: int, to: int)
    requires
        0 <= from <= to <= s.len(),
        forall|k: int| from <= k < to ==> (#[trigger] s[k] matches EmitStep::Present(_, v) && value_failure(v) is None),
    ensures
        steps_failure(s, from) == steps_failure(s, to),
    decreases to - from,
{
    if from < to {
        lemma_steps_failure_skip(s, from + 1, to);
    }
}

/// A resource's `tags` map is emitted: when its `tags` attribute is a map
/// and a template builds its block, the block's last attribute is `tags`,
/// converted from that map entry by entry.
pub proof fn law_tags_are_emitted(
    r: MappedResource,
    req: Seq<Seq<char>>,
    opt: Seq<Seq<char>>,
    b: ResourceBlock,
    m: Vec<(String, AttributeValue)>,
)
    requires
        block_outcome(r, req, opt, Ok(b)),
        r.attributes.spec_get("tags"@) == Some(AttributeValue::Object(m)),
    ensures
        b.attributes@.len() > 0,
        b.attributes@.last().0@ == "tags"@,
        value_converts(AttributeValue::Object(m), b.attributes@.last().1),
{
    let steps = emit_steps(r, req, opt);
    let n = steps.len() - 1;
    assert(steps[n] == EmitStep::Present("tags"@, AttributeValue::Object(m)));
    assert(emits_step(steps[n], b.attributes@[n]));
}

/// Builds `resource "type" "name"` for `r`: every required key (missing
/// ones are refused), the optional keys the resource sets, then `tags`
/// when it is a map; a value that cannot be emitted is refused.
pub fn build_resource_block(r: &MappedResource, required_keys: &Vec<String>, optional_keys: &Vec<String>) -> (res: Result<ResourceBlock, GeneratorError>)
    ensures
        block_outcome(*r, str_views(required_keys@), str_views(optional_keys@), res),
{
    let ghost steps = emit_steps(*r, str_views(required_keys@), str_views(optional_keys@));
    let ghost nreq = required_keys@.len();
    let ghost opt_steps = optional_steps(*r, str_views(optional_keys@));
    let mut attrs: Vec<(String, HclExpr)> = Vec::new();
    let mut i: usize = 0;
    while i < required_keys.len()
        invariant
            steps == emit_steps(*r, str_views(required_keys@), str_views(optional_keys@)),
            nreq == required_keys@.len(),
            i <= nreq,
            attrs@.len() == i,
            forall|k: int| 0 <= k < i ==> (#[trigger] steps[k] matches EmitStep::Present(_, v) && value_failure(v) is None),
            forall|k: int| 0 <= k < i ==> emits_step(#[trigger] steps[k], attrs@[k]),
        decreases nreq - i,
    {
        let k = &required_keys[i];
        proof {
            assert(steps[i as int] == required_steps(*r, str_views(required_keys@))[i as int]);
        }
        match r.attributes.get(k.as_str()) {
            None => {
                proof {
                    lemma_steps_failure_skip(steps, 0, i as int);
                }
                return Err(GeneratorError::Lookup(MapperLookupError::Missing { addr: r.target_addr.clone(), attr: k.clone() }));
            },
            Some(v) => {
                match to_expression(v) {
                    Ok(e) => {
                        attrs.push((k.clone(), e));
                    },
                    Err(e) => {
                        proof {
                            lemma_steps_failure_skip(steps, 0, i as int);
                        }
                        return Err(e);
                    },
                }
            },
        }
        i = i + 1;
    }
    let mut j: usize = 0;
    let ghost mut n: int = nreq as int;
    proof {
        assert(optional_keys@.take(0) =~= Seq::<String>::empty());
    }
    while j < optional_keys.len()
        invariant
            steps == emit_steps(*r, str_views(required_keys@), str_views(optional_keys@)),
            nreq == required_keys@.len(),
            opt_steps == optional_steps(*r, str_views(optional_keys@)),
            j <= optional_keys@.len(),
            n == nreq + optional_steps(*r, str_views(optional_keys@).take(j as int)).len(),
            optional_steps(*r, str_views(optional_keys@).take(j as int)) == opt_steps.take(n - nreq),
            opt_steps.len() >= n - nreq,
            attrs@.len() == n,
            forall|k: int| 0 <= k < n ==> (#[trigger] steps[k] matches EmitStep::Present(_, v) && value_failure(v) is None),
            forall|k: int| 0 <= k < n ==> emits_step(#[trigger] steps[k], attrs@[k]),
        decreases optional_keys@.len() - j,
    {
        let k = &optional_keys[j];
        proof {
            let ov = str_views(optional_keys@);
            assert(ov.take(j + 1).drop_last() =~= ov.take(j as int));
            assert(ov.take(j + 1).last() == optional_keys@[j as int]@);
            lemma_optional_steps_prefix(*r, ov, j as int + 1);
        }
        match r.attributes.get(k.as_str()) {
            None => {},
            Some(v) => {
                proof {
                    let t1 = str_views(optional_keys@).take(j + 1);
                    assert(r.attr(k@) == Some(*v));
                    assert(optional_steps(*r, t1) == optional_steps(*r, str_views(optional_keys@).take(j as int)).push(
                        EmitStep::Present(k@, *v),
                    ));
                    assert(optional_steps(*r, t1) == opt_steps.take(n - nreq + 1));
                    assert(opt_steps.take(n - nreq + 1)[n - nreq] == opt_steps[n - nreq]);
                    assert(opt_steps[n - nreq] == EmitStep::Present(k@, *v));
                    assert(steps[n] == opt_steps[n - nreq]);
                }
                match to_expression(v) {
                    Ok(e) => {
                        attrs.push((k.clone(), e));
                    },
                    Err(e) => {
                        proof {
                            lemma_steps_failure_skip(steps, 0, n);
                        }
                        return Err(e);
                    },
                }
                proof {
                    n = n + 1;
                }
            },
        }
        j = j + 1;
    }
    proof {
        assert(str_views(optional_keys@).take(optional_keys@.len() as int) =~= str_views(optional_keys@));
        assert(n == nreq + opt_steps.len());
        reveal_strlit("tags");
    }
    match r.attributes.get("tags") {
        Some(v) => {
            match v {
                AttributeValue::Object(_) => {
                    proof {
                        assert(steps[n] == EmitStep::Present("tags"@, *v));
                    }
                    match to_expression(v) {
                        Ok(e) => {
                            attrs.push((owned("tags"), e));
                        },
                        Err(e) => {
                            proof {
                                lemma_steps_failure_skip(steps, 0, n);
                            }
                            return Err(e);
                        },
                    }
                },
                _ => {},
            }
        },
        None => {},
    }
    proof {
        lemma_steps_failure_skip(steps, 0, steps.len() as int);
    }
    Ok(ResourceBlock { target_type: r.target_type.clone(), name: r.target_name.clone(), attributes: attrs })
}

proof fn lemma_optional_steps_prefix(r: MappedResource, opt: Seq<Seq<char>>, j: int)
    requires
        0 <= j <= opt.len(),
    ensures
        optional_steps(r, opt.take(j)) == optional_steps(r, opt).take(optional_steps(r, opt.take(j)).len() as int),
        optional_steps(r, opt.take(j)).len() <= optional_steps(r, opt).len(),
    decreases opt.len() - j,
{
    if j < opt.len() {
        lemma_optional_steps_prefix(r, opt, j + 1);
        assert(opt.take(j + 1).drop_last() =~= opt.take(j));
        let a = optional_steps(r, opt.take(j));
        let b = optional_steps(r, opt.take(j + 1));
        let full = optional_steps(r, opt);
        assert(b == full.take(b.len() as int));
        if b.len() == a.len() + 1 {
            assert(a =~= b.drop_last());
            assert(a =~= full.take(a.len() as int));
        } else {
            assert(a == b);
        }
    } else {
        assert(opt.take(j) =~= opt);
        assert(optional_steps(r, opt) =~= optional_steps(r, opt).take(optional_steps(r, opt).len() as int));
    }
}

/// A template: the keys a resource block emits.
pub struct TemplateSpec {
    /// Keys that must be set, emitted first.
    pub required: Vec<String>,
    /// Keys emitted when set.
    pub optional: Vec<String>,
}

/// The hand-curated template of a target type: its required keys, then
/// the optional keys it emits when set.
pub open spec fn curated_template(tt: Seq<char>) -> Option<(Seq<Seq<char>>, Seq<Seq<char>>)> {
    if tt == "aws_vpc"@ {
        Some((seq!["cidr_block"@], seq!["instance_tenancy"@, "enable_dns_support"@]))
    } else if tt == "aws_subnet"@ {
        Some((seq!["cidr_block"@], seq!["vpc_id"@, "availability_zone"@, "map_public_ip_on_launch"@]))
    } else if tt == "aws_security_group"@ {
        Some((seq!["name"@], seq!["vpc_id"@, "description"@]))
    } else if tt == "aws_instance"@ {
        Some((seq!["instance_type"@], seq!["ami"@, "subnet_id"@, "key_name"@, "associate_public_ip_address"@]))
    } else if tt == "aws_s3_bucket"@ {
        Some((seq!["bucket"@], seq!["acl"@, "force_destroy"@]))
    } else if tt == "azurerm_virtual_network"@ {
        Some((seq!["name"@, "resource_group_name"@, "location"@], seq!["address_space"@]))
    } else if tt == "azurerm_subnet"@ {
        Some((seq!["name"@, "resource_group_name"@, "virtual_network_name"@], seq!["address_prefixes"@]))
    } else if tt == "azurerm_network_security_group"@ {
        Some((seq!["name"@, "location"@, "resource_group_name"@], Seq::<Seq<char>>::empty()))
    } else if tt == "azurerm_linux_virtual_machine"@ {
        Some((seq!["name"@, "resource_group_name"@, "location"@, "size"@], seq!["admin_username"@, "network_interface_ids"@]))
    } else if tt == "azurerm_storage_account"@ {
        Some((seq!["name"@, "resource_group_name"@, "location"@, "account_tier"@, "account_replication_type"@], Seq::<Seq<char>>::empty()))
    } else if tt == "aws_iam_role"@ {
        Some((seq!["assume_role_policy"@], seq!["name"@, "description"@, "path"@, "permissions_boundary"@]))
    } else if tt == "google_storage_bucket"@ {
        Some((seq!["name"@, "location"@], seq!["force_destroy"@, "storage_class"@, "uniform_bucket_level_access"@, "versioning"@]))
    } else if tt == "google_compute_network"@ {
        Some((seq!["name"@], seq!["description"@, "auto_create_subnetworks"@, "routing_mode"@, "mtu"@, "delete_default_routes_on_create"@]))
    } else if tt == "google_compute_subnetwork"@ {
        Some((seq!["name"@, "ip_cidr_range"@, "network"@, "region"@], seq!["description"@, "private_ip_google_access"@, "purpose"@, "role"@, "stack_type"@, "ipv6_access_type"@]))
    } else if tt == "google_compute_firewall"@ {
        Some((seq!["name"@, "network"@], seq!["description"@, "direction"@, "priority"@, "source_ranges"@, "destination_ranges"@, "source_tags"@, "target_tags"@, "disabled"@, "log_config"@]))
    } else if tt == "google_compute_instance"@ {
        Some((seq!["name"@, "machine_type"@, "zone"@], seq!["description"@, "tags"@, "labels"@, "metadata_startup_script"@, "can_ip_forward"@, "deletion_protection"@, "hostname"@]))
    } else if tt == "azurerm_route_table"@ {
        Some((seq!["name"@, "location"@, "resource_group_name"@], seq!["disable_bgp_route_propagation"@]))
    } else if tt == "azurerm_public_ip"@ {
        Some((seq!["name"@, "location"@, "resource_group_name"@, "allocation_method"@], seq!["sku"@, "domain_name_label"@, "ip_version"@]))
    } else if tt == "azurerm_subnet_network_security_group_association"@ {
        Some((seq!["subnet_id"@, "network_security_group_id"@], Seq::<Seq<char>>::empty()))
    } else if tt == "azurerm_subnet_route_table_association"@ {
        Some((seq!["subnet_id"@, "route_table_id"@], Seq::<Seq<char>>::empty()))
    } else if tt == "azurerm_resource_group"@ {
        Some((seq!["name"@, "location"@], Seq::<Seq<char>>::empty()))
    } else {
        None
    }
}

/// The hand-curated target types, in registration order.
pub open spec fn curated_types() -> Seq<Seq<char>> {
    seq!["aws_vpc"@, "aws_subnet"@, "aws_security_group"@, "aws_instance"@, "aws_s3_bucket"@, "azurerm_virtual_network"@, "azurerm_subnet"@, "azurerm_network_security_group"@, "azurerm_linux_virtual_machine"@, "azurerm_storage_account"@, "aws_iam_role"@, "google_storage_bucket"@, "google_compute_network"@, "google_compute_subnetwork"@, "google_compute_firewall"@, "google_compute_instance"@, "azurerm_route_table"@, "azurerm_public_ip"@, "azurerm_subnet_network_security_group_association"@, "azurerm_subnet_route_table_association"@, "azurerm_resource_group"@]
}

fn names(items: &[&str]) -> (r: Vec<String>)
    ensures
        str_views(r@) == items@.map_values(|s: &str| s@),
{
    let mut out: Vec<String> = Vec::new();
    let mut i: usize = 0;
    while i < items.len()
        invariant
            i <= items@.len(),
            str_views(out@) == items@.take(i as int).map_values(|s: &str| s@),
        decreases items@.len() - i,
    {
        let ghost before = out@;
        let x = owned(items[i]);
        let ghost xv = x@;
        out.push(x);
        proof {
            assert(str_views(out@) =~= str_views(before).push(xv));
            assert(items@.take(i + 1).map_values(|s: &str| s@) =~= items@.take(i as int).map_values(|s: &str| s@).push(
                items@[i as int]@,
            ));
        }
        i = i + 1;
    }
    proof {
        assert(items@.take(items@.len() as int) =~= items@);
    }
    out
}

/// The hand-curated template for `target_type`, if there is one.
pub fn curated_template_for(target_type: &str) -> (r: Option<TemplateSpec>)
    ensures
        match curated_template(target_type@) {
            Some((req, opt)) => r matches Some(t) && str_views(t.required@) == req && str_views(t.optional@) == opt,
            None => r is None,
        },
{
    if str_eq(target_type, "aws_vpc") {
        let required = names(&["cidr_block"]);
        let optional = names(&["instance_tenancy", "enable_dns_support"]);
        proof {
            assert(str_views(required@) =~= seq!["cidr_block"@]);
            assert(str_views(optional@) =~= seq!["instance_tenancy"@, "enable_dns_support"@]);
        }
        Some(TemplateSpec { required, optional })
    } else if str_eq(target_type, "aws_subnet") {
        let required = names(&["cidr_block"]);
        let optional = names(&["vpc_id", "availability_zone", "map_public_ip_on_launch"]);
        proof {
            assert(str_views(required@) =~= seq!["cidr_block"@]);
            assert(str_views(optional@) =~= seq!["vpc_id"@, "availability_zone"@, "map_public_ip_on_launch"@]);
        }
        Some(TemplateSpec { required, optional })
    } else if str_eq(target_type, "aws_security_group") {
        let required = names(&["name"]);
        let optional = names(&["vpc_id", "description"]);
        proof {
            assert(str_views(required@) =~= seq!["name"@]);
            assert(str_views(optional@) =~= seq!["vpc_id"@, "description"@]);
        }
        Some(TemplateSpec { required, optional })
    } else if str_eq(target_type, "aws_instance") {
        let required = names(&["instance_type"]);
        let optional = names(&["ami", "subnet_id", "key_name", "associate_public_ip_address"]);
        proof {
            assert(str_views(required@) =~= seq!["instance_type"@]);
            assert(str_views(optional@) =~= seq!["ami"@, "subnet_id"@, "key_name"@, "associate_public_ip_address"@]);
        }
        Some(TemplateSpec { required, optional })
    } else if str_eq(target_type, "aws_s3_bucket") {
        let required = names(&["bucket"]);
        let optional = names(&["acl", "force_destroy"]);
        proof {
            assert(str_views(required@) =~= seq!["bucket"@]);
            assert(str_views(optional@) =~= seq!["acl"@, "force_destroy"@]);
        }
        Some(TemplateSpec { required, optional })
    } else if str_eq(target_type, "azurerm_virtual_network") {
        let required = names(&["name", "resource_group_name", "location"]);
        let optional = names(&["address_space"]);
        proof {
            assert(str_views(required@) =~= seq!["name"@, "resource_group_name"@, "location"@]);
            assert(str_views(optional@) =~= seq!["address_space"@]);
        }
        Some(TemplateSpec { required, optional })
    } else if str_eq(target_type, "azurerm_subnet") {
        let required = names(&["name", "resource_group_name", "virtual_network_name"]);
        let optional = names(&["address_prefixes"]);
        proof {
            assert(str_views(required@) =~= seq!["name"@, "resource_group_name"@, "virtual_network_name"@]);
            assert(str_views(optional@) =~= seq!["address_prefixes"@]);
        }
        Some(TemplateSpec { required, optional })
    } else if str_eq(target_type, "azurerm_network_security_group") {
        let required = names(&["name", "location", "resource_group_name"]);
        let optional = names(&[]);
        proof {
            assert(str_views(required@) =~= seq!["name"@, "location"@, "resource_group_name"@]);
            assert(str_views(optional@) =~= Seq::<Seq<char>>::empty());
        }
        Some(TemplateSpec { required, optional })
    } else if str_eq(target_type, "azurerm_linux_virtual_machine") {
        let required = names(&["name", "resource_group_name", "location", "size"]);
        let optional = names(&["admin_username", "network_interface_ids"]);
        proof {
            assert(str_views(required@) =~= seq!["name"@, "resource_group_name"@, "location"@, "size"@]);
            assert(str_views(optional@) =~= seq!["admin_username"@, "network_interface_ids"@]);
        }
        Some(TemplateSpec { required, optional })
    } else if str_eq(target_type, "azurerm_storage_account") {
        let required = names(&["name", "resource_group_name", "location", "account_tier", "account_replication_type"]);
        let optional = names(&[]);
        proof {
            assert(str_views(required@) =~= seq!["name"@, "resource_group_name"@, "location"@, "account_tier"@, "account_replication_type"@]);
            assert(str_views(optional@) =~= Seq::<Seq<char>>::empty());
        }
        Some(TemplateSpec { required, optional })
    } else if str_eq(target_type, "aws_iam_role") {
        let required = names(&["assume_role_policy"]);
        let optional = names(&["name", "description", "path", "permissions_boundary"]);
        proof {
            assert(str_views(required@) =~= seq!["assume_role_policy"@]);
            assert(str_views(optional@) =~= seq!["name"@, "description"@, "path"@, "permissions_boundary"@]);
        }
        Some(TemplateSpec { required, optional })
    } else if str_eq(target_type, "google_storage_bucket") {
        let required = names(&["name", "location"]);
        let optional = names(&["force_destroy", "storage_class", "uniform_bucket_level_access", "versioning"]);
        proof {
            assert(str_views(required@) =~= seq!["name"@, "location"@]);
            assert(str_views(optional@) =~= seq!["force_destroy"@, "storage_class"@, "uniform_bucket_level_access"@, "versioning"@]);
        }
        Some(TemplateSpec { required, optional })
    } else if str_eq(target_type, "google_compute_network") {
        let required = names(&["name"]);
        let optional = names(&["description", "auto_create_subnetworks", "routing_mode", "mtu", "delete_default_routes_on_create"]);
        proof {
            assert(str_views(required@) =~= seq!["name"@]);
            assert(str_views(optional@) =~= seq!["description"@, "auto_create_subnetworks"@, "routing_mode"@, "mtu"@, "delete_default_routes_on_create"@]);
        }
        Some(TemplateSpec { required, optional })
    } else if str_eq(target_type, "google_compute_subnetwork") {
        let required = names(&["name", "ip_cidr_range", "network", "region"]);
        let optional = names(&["description", "private_ip_google_access", "purpose", "role", "stack_type", "ipv6_access_type"]);
        proof {
            assert(str_views(required@) =~= seq!["name"@, "ip_cidr_range"@, "network"@, "region"@]);
            assert(str_views(optional@) =~= seq!["description"@, "private_ip_google_access"@, "purpose"@, "role"@, "stack_type"@, "ipv6_access_type"@]);
        }
        Some(TemplateSpec { required, optional })
    } else if str_eq(target_type, "google_compute_firewall") {
        let required = names(&["name", "network"]);
        let optional = names(&["description", "direction", "priority", "source_ranges", "destination_ranges", "source_tags", "target_tags", "disabled", "log_config"]);
        proof {
            assert(str_views(required@) =~= seq!["name"@, "network"@]);
            assert(str_views(optional@) =~= seq!["description"@, "direction"@, "priority"@, "source_ranges"@, "destination_ranges"@, "source_tags"@, "target_tags"@, "disabled"@, "log_config"@]);
        }
        Some(TemplateSpec { required, optional })
    } else if str_eq(target_type, "google_compute_instance") {
        let required = names(&["name", "machine_type", "zone"]);
        let optional = names(&["description", "tags", "labels", "metadata_startup_script", "can_ip_forward", "deletion_protection", "hostname"]);
        proof {
            assert(str_views(required@) =~= seq!["name"@, "machine_type"@, "zone"@]);
            assert(str_views(optional@) =~= seq!["description"@, "tags"@, "labels"@, "metadata_startup_script"@, "can_ip_forward"@, "deletion_protection"@, "hostname"@]);
        }
        Some(TemplateSpec { required, optional })
    } else if str_eq(target_type, "azurerm_route_table") {
        let required = names(&["name", "location", "resource_group_name"]);
        let optional = names(&["disable_bgp_route_propagation"]);
        proof {
            assert(str_views(required@) =~= seq!["name"@, "location"@, "resource_group_name"@]);
            assert(str_views(optional@) =~= seq!["disable_bgp_route_propagation"@]);
        }
        Some(TemplateSpec { required, optional })
    } else if str_eq(target_type, "azurerm_public_ip") {
        let required = names(&["name", "location", "resource_group_name", "allocation_method"]);
        let optional = names(&["sku", "domain_name_label", "ip_version"]);
        proof {
            assert(str_views(required@) =~= seq!["name"@, "location"@, "resource_group_name"@, "allocation_method"@]);
            assert(str_views(optional@) =~= seq!["sku"@, "domain_name_label"@, "ip_version"@]);
        }
        Some(TemplateSpec { required, optional })
    } else if str_eq(target_type, "azurerm_subnet_network_security_group_association") {
        let required = names(&["subnet_id", "network_security_group_id"]);
        let optional = names(&[]);
        proof {
            assert(str_views(required@) =~= seq!["subnet_id"@, "network_security_group_id"@]);
            assert(str_views(optional@) =~= Seq::<Seq<char>>::empty());
        }
        Some(TemplateSpec { required, optional })
    } else if str_eq(target_type, "azurerm_subnet_route_table_association") {
        let required = names(&["subnet_id", "route_table_id"]);
        let optional = names(&[]);
        proof {
            assert(str_views(required@) =~= seq!["subnet_id"@, "route_table_id"@]);
            assert(str_views(optional@) =~= Seq::<Seq<char>>::empty());
        }
        Some(TemplateSpec { required, optional })
    } else if str_eq(target_type, "azurerm_resource_group") {
        let required = names(&["name", "location"]);
        let optional = names(&[]);
        proof {
            assert(str_views(required@) =~= seq!["name"@, "location"@]);
            assert(str_views(optional@) =~= Seq::<Seq<char>>::empty());
        }
        Some(TemplateSpec { required, optional })
    } else {
        None
    }
}

/// The required attribute names among schema entries, in order.
pub open spec fn required_names(es: Seq<(Seq<char>, AttributeSchema)>) -> Seq<Seq<char>>
    decreases es.len(),
{
    if es.len() == 0 {
        Seq::empty()
    } else if es.last().1.required {
        required_names(es.drop_last()).push(es.last().0)
    } else {
        required_names(es.drop_last())
    }
}

/// The settable optional attribute names (optional and not computed)
/// among schema entries, in order.
pub open spec fn optional_names(es: Seq<(Seq<char>, AttributeSchema)>) -> Seq<Seq<char>>
    decreases es.len(),
{
    if es.len() == 0 {
        Seq::empty()
    } else if es.last().1.optional && !es.last().1.computed {
        optional_names(es.drop_last()).push(es.last().0)
    } else {
        optional_names(es.drop_last())
    }
}

/// The template derived from a resource schema.
pub open spec fn derived_template(rs: ResourceSchema) -> (Seq<Seq<char>>, Seq<Seq<char>>) {
    (required_names(rs.attributes@), optional_names(rs.attributes@))
}

/// The schema-derived template for `tt`: from the last schema that has
/// the type.
pub open spec fn schema_template(schemas: Seq<ProviderSchema>, tt: Seq<char>) -> Option<(Seq<Seq<char>>, Seq<Seq<char>>)>
    decreases schemas.len(),
{
    if schemas.len() == 0 {
        None
    } else {
        match schemas.last().resources.spec_get(tt) {
            Some(rs) => Some(derived_template(rs)),
            None => schema_template(schemas.drop_last(), tt),
        }
    }
}

/// The view of an optional template.
pub open spec fn template_view(t: Option<TemplateSpec>) -> Option<(Seq<Seq<char>>, Seq<Seq<char>>)> {
    match t {
        Some(t) => Some((str_views(t.required@), str_views(t.optional@))),
        None => None,
    }
}

/// The template derived from a resource schema: its required attributes,
/// then its settable optional ones, each in name order.
pub fn derive_template(rs: &ResourceSchema) -> (r: TemplateSpec)
    ensures
        (str_views(r.required@), str_views(r.optional@)) == derived_template(*rs),
{
    let ghost es = rs.attributes@;
    let n = rs.attributes.len();
    let mut required: Vec<String> = Vec::new();
    let mut optional: Vec<String> = Vec::new();
    let mut i: usize = 0;
    proof {
        assert(es.take(0) =~= Seq::<(Seq<char>, AttributeSchema)>::empty());
    }
    while i < n
        invariant
            es == rs.attributes@,
            n == es.len(),
            i <= n,
            str_views(required@) == required_names(es.take(i as int)),
            str_views(optional@) == optional_names(es.take(i as int)),
        decreases n - i,
    {
        let name = rs.attributes.key_at(i);
        let a = rs.attributes.value_at(i);
        proof {
            assert(es.take(i + 1).drop_last() =~= es.take(i as int));
            assert(es.take(i + 1).last() == es[i as int]);
        }
        let ghost rb = required@;
        let ghost ob = optional@;
        if a.required {
            required.push(name.clone());
            proof {
                assert(str_views(required@) =~= str_views(rb).push(name@));
            }
        }
        if a.optional && !a.computed {
            optional.push(name.clone());
            proof {
                assert(str_views(optional@) =~= str_views(ob).push(name@));
            }
        }
        i = i + 1;
    }
    proof {
        assert(es.take(n as int) =~= es);
    }
    TemplateSpec { required, optional }
}

/// The registry of templates: the hand-curated ones, and those derived
/// from provider schemas for every other type.
pub struct TemplateRegistry {
    schema_cache: StrMap<TemplateSpec>,
}

impl TemplateRegistry {
    /// The schema-derived template for `tt`, if any.
    pub closed spec fn derived(&self, tt: Seq<char>) -> Option<(Seq<Seq<char>>, Seq<Seq<char>>)> {
        template_view(self.schema_cache.spec_get(tt))
    }

    /// How many schema-derived templates there are.
    pub closed spec fn derived_count(&self) -> nat {
        self.schema_cache@.len()
    }

    /// The schema-derived types, in name order.
    pub closed spec fn derived_types(&self) -> Seq<Seq<char>> {
        self.schema_cache@.map_values(|e: (Seq<char>, TemplateSpec)| e.0)
    }

    /// The hand-curated templates alone.
    pub fn stage1() -> (r: Self)
        ensures
            forall|tt: Seq<char>| #[trigger] r.derived(tt) is None,
            r.derived_count() == 0,
            r.derived_types() == Seq::<Seq<char>>::empty(),
    {
        let r = TemplateRegistry { schema_cache: StrMap::new() };
        assert(r.derived_types() =~= Seq::<Seq<char>>::empty());
        r
    }

    /// The hand-curated templates, and for every other resource type of
    /// the schemas a template derived from the last schema that has it.
    pub fn with_schemas(schemas: &Vec<ProviderSchema>) -> (r: Self)
        ensures
            forall|tt: Seq<char>| #[trigger] r.derived(tt) == if curated_template(tt) is Some {
                None
            } else {
                schema_template(schemas@, tt)
            },
    {
        let mut cache: StrMap<TemplateSpec> = StrMap::new();
        let mut i: usize = 0;
        proof {
            assert(schemas@.take(0) =~= Seq::<ProviderSchema>::empty());
        }
        while i < schemas.len()
            invariant
                i <= schemas@.len(),
                forall|tt: Seq<char>| #[trigger] template_view(cache.spec_get(tt)) == if curated_template(tt) is Some {
                    None
                } else {
                    schema_template(schemas@.take(i as int), tt)
                },
            decreases schemas@.len() - i,
        {
            let sch = &schemas[i];
            let ghost ents = sch.resources@;
            let n = sch.resources.len();
            let mut j: usize = 0;
            while j < n
                invariant
                    i < schemas@.len(),
                    *sch == schemas@[i as int],
                    ents == sch.resources@,
                    n == ents.len(),
                    sorted_keys(ents),
                    j <= n,
                    forall|tt: Seq<char>| #[trigger] template_view(cache.spec_get(tt)) == if curated_template(tt) is Some {
                        None
                    } else if exists|m: int| 0 <= m < j && ents[m].0 == tt {
                        Some(derived_template(ents[choose|m: int| 0 <= m < j && ents[m].0 == tt].1))
                    } else {
                        schema_template(schemas@.take(i as int), tt)
                    },
                decreases n - j,
            {
                let tt = sch.resources.key_at(j);
                let rs = sch.resources.value_at(j);
                if curated_template_for(tt.as_str()).is_none() {
                    let t = derive_template(rs);
                    cache.insert(tt.clone(), t);
                }
                proof {
                    assert forall|q: Seq<char>| #[trigger] template_view(cache.spec_get(q)) == if curated_template(q) is Some {
                        None
                    } else if exists|m: int| 0 <= m < j + 1 && ents[m].0 == q {
                        Some(derived_template(ents[choose|m: int| 0 <= m < j + 1 && ents[m].0 == q].1))
                    } else {
                        schema_template(schemas@.take(i as int), q)
                    } by {
                        let kj = ents[j as int].0;
                        if curated_template(q) is Some {
                        } else if q == kj {
                            assert(ents[j as int].0 == q);
                            let c = choose|m: int| 0 <= m < j + 1 && ents[m].0 == q;
                            if c != j {
                                assert(crate::text::seq_lt(ents[c].0, ents[j as int].0));
                                crate::text::lemma_seq_lt_irreflexive(q);
                            }
                            if exists|m: int| 0 <= m < j && ents[m].0 == q {
                                let d = choose|m: int| 0 <= m < j && ents[m].0 == q;
                                assert(crate::text::seq_lt(ents[d].0, ents[j as int].0));
                                crate::text::lemma_seq_lt_irreflexive(q);
                            }
                        } else {
                            if exists|m: int| 0 <= m < j + 1 && ents[m].0 == q {
                                let c = choose|m: int| 0 <= m < j + 1 && ents[m].0 == q;
                                assert(c != j);
                                assert(0 <= c < j && ents[c].0 == q);
                                let d = choose|m: int| 0 <= m < j && ents[m].0 == q;
                                if c < d {
                                    assert(crate::text::seq_lt(ents[c].0, ents[d].0));
                                    crate::text::lemma_seq_lt_irreflexive(q);
                                } else if d < c {
                                    assert(crate::text::seq_lt(ents[d].0, ents[c].0));
                                    crate::text::lemma_seq_lt_irreflexive(q);
                                }
                            }
                        }
                    }
                }
                j = j + 1;
            }
            proof {
                assert forall|tt: Seq<char>| #[trigger] template_view(cache.spec_get(tt)) == if curated_template(tt) is Some {
                    None
                } else {
                    schema_template(schemas@.take(i + 1), tt)
                } by {
                    let t1 = schemas@.take(i + 1);
                    assert(t1.drop_last() =~= schemas@.take(i as int));
                    assert(t1.last() == schemas@[i as int]);
                    if exists|m: int| 0 <= m < n && ents[m].0 == tt {
                        let m = choose|m: int| 0 <= m < n && ents[m].0 == tt;
                        lemma_lookup_at(ents, m);
                    } else {
                        if crate::strmap::has_key(ents, tt) {
                            let m = choose|m: int| 0 <= m < ents.len() && #[trigger] ents[m].0 == tt;
                            assert(ents[m].0 == tt);
                        }
                    }
                }
            }
            i = i + 1;
        }
        proof {
            assert(schemas@.take(schemas@.len() as int) =~= schemas@);
        }
        TemplateRegistry { schema_cache: cache }
    }

    /// The hand-curated template for `target_type`, if one is registered.
    pub fn template_for(&self, target_type: &str) -> (r: Option<TemplateSpec>)
        ensures
            template_view(r) == curated_template(target_type@),
    {
        curated_template_for(target_type)
    }

    /// The block for `r`: by its type's hand-curated template, else by its
    /// schema-derived template; a type with neither is a template miss.
    pub fn emit(&self, r: &MappedResource) -> (res: Result<ResourceBlock, GeneratorError>)
        ensures
            match curated_template(r.target_type@) {
                Some((req, opt)) => block_outcome(*r, req, opt, res),
                None => match self.derived(r.target_type@) {
                    Some((req, opt)) => block_outcome(*r, req, opt, res),
                    None => res matches Err(e) && is_template_miss(e, r.target_type@),
                },
            },
    {
        match curated_template_for(r.target_type.as_str()) {
            Some(t) => {
                let res = build_resource_block(r, &t.required, &t.optional);
                proof {
                    assert(template_view(Some(t)) == curated_template(r.target_type@));
                }
                res
            },
            None => match self.schema_cache.get(r.target_type.as_str()) {
                Some(t) => {
                    let res = build_resource_block(r, &t.required, &t.optional);
                    proof {
                        assert(template_view(Some(*t)) == self.derived(r.target_type@));
                    }
                    res
                },
                None => Err(GeneratorError::TemplateMiss { target_type: r.target_type.clone() }),
            },
        }
    }

    /// Every type with a template: the hand-curated ones in registration
    /// order, then the schema-derived ones in name order.
    pub fn registered_types(&self) -> (r: Vec<String>)
        ensures
            str_views(r@) == curated_types() + self.derived_types(),
    {
        let mut out = names(
            &[
                "aws_vpc",
                "aws_subnet",
                "aws_security_group",
                "aws_instance",
                "aws_s3_bucket",
                "azurerm_virtual_network",
                "azurerm_subnet",
                "azurerm_network_security_group",
                "azurerm_linux_virtual_machine",
                "azurerm_storage_account",
                "aws_iam_role",
                "google_storage_bucket",
                "google_compute_network",
                "google_compute_subnetwork",
                "google_compute_firewall",
                "google_compute_instance",
                "azurerm_route_table",
                "azurerm_public_ip",
                "azurerm_subnet_network_security_group_association",
                "azurerm_subnet_route_table_association",
                "azurerm_resource_group",
            ],
        );
        proof {
            assert(str_views(out@) =~= curated_types());
        }
        let n = self.schema_cache.len();
        let mut i: usize = 0;
        while i < n
            invariant
                n == self.schema_cache@.len(),
                i <= n,
                str_views(out@) == curated_types() + self.derived_types().take(i as int),
            decreases n - i,
        {
            let ghost before = out@;
            let k = self.schema_cache.key_at(i);
            let x = k.clone();
            out.push(x);
            proof {
                assert(str_views(out@) =~= str_views(before).push(k@));
                assert(self.derived_types()[i as int] == k@);
                assert(self.derived_types().take(i + 1) =~= self.derived_types().take(i as int).push(k@));
                assert(str_views(out@) =~= curated_types() + self.derived_types().take(i + 1));
            }
            i = i + 1;
        }
        proof {
            assert(self.derived_types().take(n as int) =~= self.derived_types());
        }
        out
    }

    /// How many templates there are, hand-curated and schema-derived.
    pub fn len(&self) -> (r: usize)
        requires
            self.derived_count() + curated_types().len() <= usize::MAX,
        ensures
            r == curated_types().len() + self.derived_count(),
    {
        let n = self.schema_cache.len();
        n + 21
    }

    /// Whether no template is registered (never: the hand-curated set is
    /// not empty).
    pub fn is_empty(&self) -> (r: bool)
        ensures
            r == (curated_types().len() + self.derived_count() == 0),
    {
        false
    }
}

/// The order on sort keys: by the first string, then the second, then the
/// original position (so equal keys keep their order).
pub open spec fn key_lt(keys: Seq<(String, String)>, a: int, b: int) -> bool {
    let ka = keys[a];
    let kb = keys[b];
    seq_lt(ka.0@, kb.0@) || (ka.0@ == kb.0@ && (seq_lt(ka.1@, kb.1@) || (ka.1@ == kb.1@ && a < b)))
}

proof fn lemma_key_lt_trans(keys: Seq<(String, String)>, a: int, b: int, c: int)
    requires
        key_lt(keys, a, b),
        key_lt(keys, b, c),
    ensures
        key_lt(keys, a, c),
{
    let (x, y, z) = (keys[a], keys[b], keys[c]);
    if seq_lt(x.0@, y.0@) && seq_lt(y.0@, z.0@) {
        lemma_seq_lt_transitive(x.0@, y.0@, z.0@);
    } else if seq_lt(x.0@, y.0@) {
    } else if seq_lt(y.0@, z.0@) {
    } else if seq_lt(x.1@, y.1@) && seq_lt(y.1@, z.1@) {
        lemma_seq_lt_transitive(x.1@, y.1@, z.1@);
    }
}

proof fn lemma_key_lt_total(keys: Seq<(String, String)>, a: int, b: int)
    requires
        a != b,
    ensures
        key_lt(keys, a, b) || key_lt(keys, b, a),
        !(key_lt(keys, a, b) && key_lt(keys, b, a)),
{
    let (x, y) = (keys[a], keys[b]);
    lemma_seq_lt_total(x.0@, y.0@);
    lemma_seq_lt_total(x.1@, y.1@);
    if seq_lt(x.0@, y.0@) {
        lemma_seq_lt_asymmetric(x.0@, y.0@);
    }
    if seq_lt(y.0@, x.0@) {
        lemma_seq_lt_asymmetric(y.0@, x.0@);
    }
    if seq_lt(x.1@, y.1@) {
        lemma_seq_lt_asymmetric(x.1@, y.1@);
    }
    if seq_lt(y.1@, x.1@) {
        lemma_seq_lt_asymmetric(y.1@, x.1@);
    }
    lemma_seq_lt_irreflexive(x.0@);
    lemma_seq_lt_irreflexive(x.1@);
}

/// Whether `order` lists each of the positions `0..n` once, sorted by the
/// keys.
pub open spec fn sorted_order(keys: Seq<(String, String)>, order: Seq<usize>, n: int) -> bool {
    &&& order.len() == n
    &&& forall|k: int| 0 <= k < n ==> #[trigger] order[k] < n
    &&& forall|k: int, l: int| 0 <= k < l < n ==> #[trigger] order[k] != #[trigger] order[l]
    &&& forall|k: int, l: int| 0 <= k < l < n ==> key_lt(keys, #[trigger] order[k] as int, #[trigger] order[l] as int)
}

fn key_less(keys: &Vec<(String, String)>, a: usize, b: usize) -> (r: bool)
    requires
        a < keys@.len(),
        b < keys@.len(),
    ensures
        r == key_lt(keys@, a as int, b as int),
{
    let ka = &keys[a];
    let kb = &keys[b];
    if str_lt(ka.0.as_str(), kb.0.as_str()) {
        true
    } else if str_eq(ka.0.as_str(), kb.0.as_str()) {
        if str_lt(ka.1.as_str(), kb.1.as_str()) {
            true
        } else {
            str_eq(ka.1.as_str(), kb.1.as_str()) && a < b
        }
    } else {
        false
    }
}

/// The positions `0..keys.len()` in key order; equal keys keep their
/// original order.
pub fn stable_order(keys: &Vec<(String, String)>) -> (r: Vec<usize>)
    ensures
        sorted_order(keys@, r@, keys@.len() as int),
{
    let n = keys.len();
    let mut order: Vec<usize> = Vec::new();
    let mut i: usize = 0;
    while i < n
        invariant
            n == keys@.len(),
            i <= n,
            sorted_order(keys@, order@, i as int),
        decreases n - i,
    {
        let mut p: usize = 0;
        while p < order.len() && !key_less(keys, i, order[p])
            invariant
                n == keys@.len(),
                i < n,
                p <= order@.len(),
                sorted_order(keys@, order@, i as int),
                forall|q: int| 0 <= q < p ==> key_lt(keys@, #[trigger] order@[q] as int, i as int),
            decreases order@.len() - p,
        {
            proof {
                lemma_key_lt_total(keys@, i as int, order@[p as int] as int);
            }
            p = p + 1;
        }
        let ghost old_order = order@;
        order.insert(p, i);
        proof {
            let o = order@;
            assert(o == old_order.insert(p as int, i));
            assert forall|k: int| 0 <= k < i + 1 implies #[trigger] o[k] < i + 1 by {
                if k < p {
                    assert(o[k] == old_order[k]);
                } else if k > p {
                    assert(o[k] == old_order[k - 1]);
                }
            }
            assert forall|k: int, l: int| 0 <= k < l < i + 1 implies #[trigger] o[k] != #[trigger] o[l] by {
                if k < p && l < p {
                    assert(o[k] == old_order[k] && o[l] == old_order[l]);
                } else if k < p && l == p {
                    assert(o[k] == old_order[k]);
                } else if k < p && l > p {
                    assert(o[k] == old_order[k] && o[l] == old_order[l - 1]);
                } else if k == p {
                    assert(o[l] == old_order[l - 1]);
                } else {
                    assert(o[k] == old_order[k - 1] && o[l] == old_order[l - 1]);
                }
            }
            assert forall|k: int, l: int| 0 <= k < l < i + 1 implies key_lt(keys@, #[trigger] o[k] as int, #[trigger] o[l] as int) by {
                if k < p && l < p {
                    assert(o[k] == old_order[k] && o[l] == old_order[l]);
                } else if k < p && l == p {
                    assert(o[k] == old_order[k]);
                } else if k < p && l > p {
                    assert(o[k] == old_order[k] && o[l] == old_order[l - 1]);
                    lemma_key_lt_total(keys@, i as int, old_order[p as int] as int);
                    if l - 1 > p {
                        assert(key_lt(keys@, old_order[p as int] as int, old_order[l - 1] as int));
                    }
                    assert(key_lt(keys@, i as int, old_order[l - 1] as int)) by {
                        if l - 1 > p {
                            lemma_key_lt_trans(keys@, i as int, old_order[p as int] as int, old_order[l - 1] as int);
                        }
                    }
                    lemma_key_lt_trans(keys@, old_order[k] as int, i as int, old_order[l - 1] as int);
                } else if k == p {
                    assert(o[l] == old_order[l - 1]);
                    if l - 1 > p {
                        assert(key_lt(keys@, old_order[p as int] as int, old_order[l - 1] as int));
                        lemma_key_lt_trans(keys@, i as int, old_order[p as int] as int, old_order[l - 1] as int);
                    }
                } else {
                    assert(o[k] == old_order[k - 1] && o[l] == old_order[l - 1]);
                }
            }
        }
        i = i + 1;
    }
    order
}

/// The emission order on resources: by `target_addr`, equal addresses
/// keeping their plan order.
pub open spec fn addr_lt(rs: Seq<MappedResource>, a: int, b: int) -> bool {
    seq_lt(rs[a].target_addr@, rs[b].target_addr@) || (rs[a].target_addr@ == rs[b].target_addr@ && a < b)
}

/// Whether `out` is `rs` listed through the positions `order`, each
/// position once, sorted by address.
pub open spec fn sorted_through(rs: Seq<MappedResource>, out: Seq<&MappedResource>, order: Seq<usize>) -> bool {
    &&& order.len() == rs.len()
    &&& out.len() == rs.len()
    &&& forall|k: int| 0 <= k < rs.len() ==> #[trigger] order[k] < rs.len() && *out[k] == rs[order[k] as int]
    &&& forall|k: int, l: int| 0 <= k < l < rs.len() ==> #[trigger] order[k] != #[trigger] order[l]
    &&& forall|k: int, l: int| 0 <= k < l < rs.len() ==> addr_lt(rs, #[trigger] order[k] as int, #[trigger] order[l] as int)
}

/// The resources sorted by `target_addr` (a stable sort).
pub fn sort_resources(resources: &Vec<MappedResource>) -> (r: Vec<&MappedResource>)
    ensures
        exists|order: Seq<usize>| #[trigger] sorted_through(resources@, r@, order),
{
    let n = resources.len();
    let mut keys: Vec<(String, String)> = Vec::new();
    let mut i: usize = 0;
    while i < n
        invariant
            n == resources@.len(),
            i <= n,
            keys@.len() == i,
            forall|k: int| 0 <= k < i ==> (#[trigger] keys@[k]).0@ == Seq::<char>::empty() && keys@[k].1@ == resources@[k].target_addr@,
        decreases n - i,
    {
        keys.push((String::new(), resources[i].target_addr.clone()));
        i = i + 1;
    }
    let order = stable_order(&keys);
    let mut out: Vec<&MappedResource> = Vec::new();
    let mut j: usize = 0;
    while j < n
        invariant
            n == resources@.len(),
            sorted_order(keys@, order@, n as int),
            j <= n,
            out@.len() == j,
            forall|k: int| 0 <= k < j ==> *(#[trigger] out@[k]) == resources@[order@[k] as int],
        decreases n - j,
    {
        out.push(&resources[order[j]]);
        j = j + 1;
    }
    proof {
        lemma_seq_lt_irreflexive(Seq::<char>::empty());
        assert forall|k: int, l: int| 0 <= k < l < n implies addr_lt(resources@, #[trigger] order@[k] as int, #[trigger] order@[l] as int) by {
            assert(key_lt(keys@, order@[k] as int, order@[l] as int));
        }
        assert(sorted_through(resources@, out@, order@));
    }
    out
}

/// The resources of `s` with target type `tt`, in order.
pub open spec fn of_type(s: Seq<&MappedResource>, tt: Seq<char>) -> Seq<&MappedResource>
    decreases s.len(),
{
    if s.len() == 0 {
        Seq::empty()
    } else if s.last().target_type@ == tt {
        of_type(s.drop_last(), tt).push(s.last())
    } else {
        of_type(s.drop_last(), tt)
    }
}

fn filter_type<'a>(s: &Vec<&'a MappedResource>, tt: &str) -> (r: Vec<&'a MappedResource>)
    ensures
        r@ == of_type(s@, tt@),
{
    let mut out: Vec<&MappedResource> = Vec::new();
    let mut i: usize = 0;
    proof {
        assert(s@.take(0) =~= Seq::<&MappedResource>::empty());
    }
    while i < s.len()
        invariant
            i <= s@.len(),
            out@ == of_type(s@.take(i as int), tt@),
        decreases s@.len() - i,
    {
        proof {
            assert(s@.take(i + 1).drop_last() =~= s@.take(i as int));
            assert(s@.take(i + 1).last() == s@[i as int]);
        }
        if str_eq(s[i].target_type.as_str(), tt) {
            out.push(s[i]);
        }
        i = i + 1;
    }
    proof {
        assert(s@.take(s@.len() as int) =~= s@);
    }
    out
}

/// The resources grouped by target type (one group per type, in type
/// order), each group keeping the order of `resources`.
pub fn group_by_target_type<'a>(resources: &Vec<&'a MappedResource>) -> (r: StrMap<Vec<&'a MappedResource>>)
    ensures
        forall|tt: Seq<char>| #[trigger] r.spec_has(tt) == (exists|k: int| 0 <= k < resources@.len() && resources@[k].target_type@ == tt),
        forall|tt: Seq<char>| r.spec_has(tt) ==> (#[trigger] r.spec_get(tt))->0@ == of_type(resources@, tt),
{
    let mut m: StrMap<Vec<&MappedResource>> = StrMap::new();
    let mut i: usize = 0;
    while i < resources.len()
        invariant
            i <= resources@.len(),
            forall|tt: Seq<char>| #[trigger] m.spec_has(tt) == (exists|k: int| 0 <= k < i && resources@[k].target_type@ == tt),
            forall|tt: Seq<char>| m.spec_has(tt) ==> (#[trigger] m.spec_get(tt))->0@ == of_type(resources@, tt),
        decreases resources@.len() - i,
    {
        let tt = &resources[i].target_type;
        let ghost m0 = m;
        if !m.contains_key(tt.as_str()) {
            let g = filter_type(resources, tt.as_str());
            m.insert(tt.clone(), g);
        }
        proof {
            assert forall|q: Seq<char>| #[trigger] m.spec_has(q) == (exists|k: int| 0 <= k < i + 1 && resources@[k].target_type@ == q) by {
                if q == resources@[i as int].target_type@ {
                    assert(resources@[i as int].target_type@ == q);
                }
                crate::strmap::lemma_has_get(m, q);
                crate::strmap::lemma_has_get(m0, q);
            }
        }
        i = i + 1;
    }
    m
}

/// What the hand-curated template of `r`'s type gives for `r`: a template
/// miss when there is none.
pub open spec fn curated_block_outcome(r: MappedResource, res: Result<ResourceBlock, GeneratorError>) -> bool {
    match curated_template(r.target_type@) {
        Some((req, opt)) => block_outcome(r, req, opt, res),
        None => res matches Err(e) && is_template_miss(e, r.target_type@),
    }
}

/// Whether the hand-curated template of `r`'s type cannot emit `r`.
pub open spec fn curated_fails(r: MappedResource) -> bool {
    match curated_template(r.target_type@) {
        Some((req, opt)) => steps_failure(emit_steps(r, req, opt), 0) is Some,
        None => true,
    }
}

/// The block for one resource by its type's hand-curated template.
pub fn plan_block(resource: &MappedResource) -> (r: Result<ResourceBlock, GeneratorError>)
    ensures
        curated_block_outcome(*resource, r),
        r is Err <==> curated_fails(*resource),
{
    match curated_template_for(resource.target_type.as_str()) {
        Some(t) => build_resource_block(resource, &t.required, &t.optional),
        None => Err(GeneratorError::TemplateMiss { target_type: resource.target_type.clone() }),
    }
}

/// Whether `order` lists each position of `rs` once, sorted by `lt_keys`
/// built from `(first, second)` keys of the resources.
pub open spec fn addr_order(rs: Seq<MappedResource>, order: Seq<usize>) -> bool {
    &&& order.len() == rs.len()
    &&& forall|k: int| 0 <= k < rs.len() ==> #[trigger] order[k] < rs.len()
    &&& forall|k: int, l: int| 0 <= k < l < rs.len() ==> #[trigger] order[k] != #[trigger] order[l]
    &&& forall|k: int, l: int| 0 <= k < l < rs.len() ==> addr_lt(rs, #[trigger] order[k] as int, #[trigger] order[l] as int)
}

/// The order in which files are emitted: by target type, then address,
/// then plan position.
pub open spec fn emission_lt(rs: Seq<MappedResource>, a: int, b: int) -> bool {
    seq_lt(rs[a].target_type@, rs[b].target_type@) || (rs[a].target_type@ == rs[b].target_type@ && addr_lt(rs, a, b))
}

/// Whether `order` lists each position of `rs` once in emission order.
pub open spec fn emission_order(rs: Seq<MappedResource>, order: Seq<usize>) -> bool {
    &&& order.len() == rs.len()
    &&& forall|k: int| 0 <= k < rs.len() ==> #[trigger] order[k] < rs.len()
    &&& forall|k: int, l: int| 0 <= k < l < rs.len() ==> #[trigger] order[k] != #[trigger] order[l]
    &&& forall|k: int, l: int| 0 <= k < l < rs.len() ==> emission_lt(rs, #[trigger] order[k] as int, #[trigger] order[l] as int)
}

/// The outcome of emitting `rs` listed through `order`: the first resource
/// that cannot be emitted gives the error; otherwise every block, in order.
pub open spec fn blocks_outcome(rs: Seq<MappedResource>, order: Seq<usize>, r: Result<Seq<ResourceBlock>, GeneratorError>) -> bool {
    match r {
        Ok(bs) => {
            &&& bs.len() == order.len()
            &&& forall|k: int| 0 <= k < order.len() ==> !curated_fails(rs[#[trigger] order[k] as int])
                && curated_block_outcome(rs[order[k] as int], Ok(bs[k]))
        },
        Err(e) => exists|k: int|
            0 <= k < order.len() && curated_fails(rs[#[trigger] order[k] as int]) && (forall|j: int|
                0 <= j < k ==> !curated_fails(rs[#[trigger] order[j] as int])) && curated_block_outcome(
                rs[order[k] as int],
                Err(e),
            ),
    }
}

fn blocks_in_order(rs: &Vec<MappedResource>, order: &Vec<usize>) -> (r: Result<Vec<ResourceBlock>, GeneratorError>)
    requires
        forall|k: int| 0 <= k < order@.len() ==> #[trigger] order@[k] < rs@.len(),
    ensures
        blocks_outcome(rs@, order@, match r { Ok(v) => Ok(v@), Err(e) => Err(e) }),
{
    let mut out: Vec<ResourceBlock> = Vec::new();
    let mut k: usize = 0;
    while k < order.len()
        invariant
            forall|q: int| 0 <= q < order@.len() ==> #[trigger] order@[q] < rs@.len(),
            k <= order@.len(),
            out@.len() == k,
            forall|q: int| 0 <= q < k ==> !curated_fails(rs@[#[trigger] order@[q] as int])
                && curated_block_outcome(rs@[order@[q] as int], Ok(out@[q])),
        decreases order@.len() - k,
    {
        let res = &rs[order[k]];
        match plan_block(res) {
            Ok(b) => {
                out.push(b);
            },
            Err(e) => {
                proof {
                    assert(curated_fails(rs@[order@[k as int] as int]));
                }
                return Err(e);
            },
        }
        k = k + 1;
    }
    Ok(out)
}

fn keys_of(rs: &Vec<MappedResource>, by_type: bool) -> (r: Vec<(String, String)>)
    ensures
        r@.len() == rs@.len(),
        forall|k: int| 0 <= k < rs@.len() ==> (#[trigger] r@[k]).1@ == rs@[k].target_addr@ && r@[k].0@ == if by_type {
            rs@[k].target_type@
        } else {
            Seq::<char>::empty()
        },
{
    let mut keys: Vec<(String, String)> = Vec::new();
    let mut i: usize = 0;
    while i < rs.len()
        invariant
            i <= rs@.len(),
            keys@.len() == i,
            forall|k: int| 0 <= k < i ==> (#[trigger] keys@[k]).1@ == rs@[k].target_addr@ && keys@[k].0@ == if by_type {
                rs@[k].target_type@
            } else {
                Seq::<char>::empty()
            },
        decreases rs@.len() - i,
    {
        let first = if by_type { rs[i].target_type.clone() } else { String::new() };
        keys.push((first, rs[i].target_addr.clone()));
        i = i + 1;
    }
    keys
}

/// The blocks for the resources in address order, each by its type's
/// hand-curated template; the first resource that cannot be emitted gives
/// the error.
pub fn plan_blocks(resources: &Vec<MappedResource>) -> (r: Result<Vec<ResourceBlock>, GeneratorError>)
    ensures
        exists|order: Seq<usize>| #[trigger] addr_order(resources@, order) && blocks_outcome(resources@, order, match r {
            Ok(v) => Ok(v@),
            Err(e) => Err(e),
        }),
{
    let keys = keys_of(resources, false);
    let order = stable_order(&keys);
    proof {
        lemma_seq_lt_irreflexive(Seq::<char>::empty());
        assert forall|k: int, l: int| 0 <= k < l < resources@.len() implies addr_lt(resources@, #[trigger] order@[k] as int, #[trigger] order@[l] as int) by {
            assert(key_lt(keys@, order@[k] as int, order@[l] as int));
        }
        assert(addr_order(resources@, order@));
    }
    blocks_in_order(resources, &order)
}

/// One file of output: the blocks of one target type.
#[derive(Debug)]
pub struct PlannedFile {
    pub target_type: String,
    /// `<target_type>.tf`
    pub file_name: String,
    pub blocks: Vec<ResourceBlock>,
}

/// The blocks of the files, file after file.
pub open spec fn flat_blocks(files: Seq<PlannedFile>) -> Seq<ResourceBlock>
    decreases files.len(),
{
    if files.len() == 0 {
        Seq::empty()
    } else {
        flat_blocks(files.drop_last()) + files.last().blocks@
    }
}

/// For every block of the files, the target type of its file.
pub open spec fn flat_types(files: Seq<PlannedFile>) -> Seq<Seq<char>>
    decreases files.len(),
{
    if files.len() == 0 {
        Seq::empty()
    } else {
        flat_types(files.drop_last()) + Seq::new(files.last().blocks@.len(), |i: int| files.last().target_type@)
    }
}

/// Whether the files are well formed: each names its type's file, holds at
/// least one block, and the types strictly increase.
pub open spec fn files_well_formed(files: Seq<PlannedFile>) -> bool {
    &&& forall|f: int| 0 <= f < files.len() ==> (#[trigger] files[f]).file_name@ == files[f].target_type@ + ".tf"@
        && files[f].blocks@.len() > 0
    &&& forall|f: int, g: int| 0 <= f < g < files.len() ==> seq_lt(#[trigger] files[f].target_type@, #[trigger] files[g].target_type@)
}

proof fn lemma_flat_lens(files: Seq<PlannedFile>)
    ensures
        flat_types(files).len() == flat_blocks(files).len(),
    decreases files.len(),
{
    if files.len() > 0 {
        lemma_flat_lens(files.drop_last());
    }
}

/// Whether `r` is the emission plan of the resources `rs`: listed in
/// emission order, the resources' types run through the files and their
/// blocks through the files' blocks; the first resource that cannot be
/// emitted gives the error.
pub open spec fn emission_result(rs: Seq<MappedResource>, r: Result<Vec<PlannedFile>, GeneratorError>) -> bool {
    exists|order: Seq<usize>| #[trigger] emission_order(rs, order) && match r {
        Ok(files) => files_well_formed(files@) && flat_types(files@) == Seq::new(
            order.len(),
            |k: int| rs[order[k] as int].target_type@,
        ) && blocks_outcome(rs, order, Ok(flat_blocks(files@))),
        Err(e) => blocks_outcome(rs, order, Err(e)),
    }
}

/// The emission plan of a mapping plan: one file per target type, in type
/// order, holding its resources' blocks in address order, each by its
/// type's hand-curated template; the first resource (in that order) that
/// cannot be emitted gives the error.
pub fn plan_emission(plan: &MappingPlan) -> (r: Result<Vec<PlannedFile>, GeneratorError>)
    ensures
        emission_result(plan.resources@, r),
{
    let rs = &plan.resources;
    let keys = keys_of(rs, true);
    let order = stable_order(&keys);
    proof {
        assert forall|k: int, l: int| 0 <= k < l < rs@.len() implies emission_lt(rs@, #[trigger] order@[k] as int, #[trigger] order@[l] as int) by {
            assert(key_lt(keys@, order@[k] as int, order@[l] as int));
        }
        assert(emission_order(rs@, order@));
    }
    let blocks = match blocks_in_order(rs, &order) {
        Ok(b) => b,
        Err(e) => return Err(e),
    };
    let ghost all = blocks@;
    let ghost types = Seq::new(order@.len(), |k: int| rs@[order@[k] as int].target_type@);
    let mut files: Vec<PlannedFile> = Vec::new();
    let mut cur: Vec<ResourceBlock> = Vec::new();
    let mut blocks = blocks;
    let n = blocks.len();
    let mut k: usize = 0;
    proof {
        assert(flat_blocks(files@) + cur@ =~= all.take(0));
    }
    while k < n
        invariant
            n == all.len(),
            n == order@.len(),
            k <= n,
            blocks@ == all.skip(k as int),
            types == Seq::new(order@.len(), |q: int| rs@[order@[q] as int].target_type@),
            emission_order(rs@, order@),
            files_well_formed(files@),
            flat_blocks(files@) + cur@ == all.take(k as int),
            flat_types(files@) + Seq::new(cur@.len(), |i: int| types[k - 1]) == types.take(k as int),
            k > 0 ==> cur@.len() > 0,
            k == 0 ==> cur@.len() == 0 && files@.len() == 0,
            forall|f: int| 0 <= f < files@.len() ==> seq_lt(#[trigger] files@[f].target_type@, types[k - 1]),
        decreases n - k,
    {
        let ghost f0 = files@;
        let ghost c0 = cur@;
        let b = blocks.remove(0);
        proof {
            assert(blocks@ =~= all.skip(k + 1));
            assert(b == all[k as int]);
            assert(all.take(k + 1) =~= all.take(k as int).push(all[k as int]));
            assert(types.take(k + 1) =~= types.take(k as int).push(types[k as int]));
            assert(types[k as int] == rs@[order@[k as int] as int].target_type@);
        }
        let tt_k = &rs[order[k]].target_type;
        if k > 0 && !str_eq(rs[order[k - 1]].target_type.as_str(), tt_k.as_str()) {
            // A new target type starts a new file.
            let finished_type = rs[order[k - 1]].target_type.clone();
            let mut name = finished_type.clone();
            name.append(".tf");
            let mut done: Vec<ResourceBlock> = Vec::new();
            std::mem::swap(&mut done, &mut cur);
            let ghost pf_type = finished_type@;
            files.push(PlannedFile { target_type: finished_type, file_name: name, blocks: done });
            proof {
                assert(pf_type == types[k - 1]);
                assert(files@.drop_last() =~= f0);
                assert(flat_blocks(files@) =~= flat_blocks(f0) + c0);
                assert(flat_types(files@) =~= flat_types(f0) + Seq::new(c0.len(), |i: int| types[k - 1]));
                assert(emission_lt(rs@, order@[k - 1] as int, order@[k as int] as int));
                assert(seq_lt(types[k - 1], types[k as int]));
                assert forall|f: int| 0 <= f < files@.len() implies seq_lt(#[trigger] files@[f].target_type@, types[k as int]) by {
                    if f < f0.len() {
                        assert(files@[f] == f0[f]);
                        lemma_seq_lt_transitive(f0[f].target_type@, types[k - 1], types[k as int]);
                    }
                }
                assert forall|f: int, g: int| 0 <= f < g < files@.len() implies seq_lt(#[trigger] files@[f].target_type@, #[trigger] files@[g].target_type@) by {
                    if g < f0.len() {
                        assert(files@[f] == f0[f] && files@[g] == f0[g]);
                    } else {
                        assert(files@[f] == f0[f]);
                    }
                }
                assert forall|f: int| 0 <= f < files@.len() implies (#[trigger] files@[f]).file_name@ == files@[f].target_type@ + ".tf"@
                    && files@[f].blocks@.len() > 0 by {
                    if f < f0.len() {
                        assert(files@[f] == f0[f]);
                    }
                }
            }
        }
        let ghost f1 = files@;
        let ghost c1 = cur@;
        cur.push(b);
        proof {
            assert(flat_blocks(files@) + cur@ =~= all.take(k + 1));
            if k > 0 && types[k - 1] != types[k as int] {
                assert(c1.len() == 0);
                assert(flat_types(files@) + Seq::new(cur@.len(), |i: int| types[k as int]) =~= types.take(k + 1));
            } else if k > 0 {
                assert(flat_types(files@) + Seq::new(cur@.len(), |i: int| types[k as int]) =~= types.take(k + 1));
            } else {
                assert(flat_types(files@) =~= Seq::<Seq<char>>::empty());
                assert(flat_types(files@) + Seq::new(cur@.len(), |i: int| types[k as int]) =~= types.take(k + 1));
            }
        }
        k = k + 1;
    }
    proof {
        assert(all.take(n as int) =~= all);
        assert(types.take(n as int) =~= types);
    }
    if n > 0 {
        let ghost f0 = files@;
        let ghost c0 = cur@;
        let finished_type = rs[order[n - 1]].target_type.clone();
        let mut name = finished_type.clone();
        name.append(".tf");
        files.push(PlannedFile { target_type: finished_type, file_name: name, blocks: cur });
        proof {
            assert(files@.drop_last() =~= f0);
            assert(flat_blocks(files@) =~= flat_blocks(f0) + c0);
            assert(flat_types(files@) =~= flat_types(f0) + Seq::new(c0.len(), |i: int| types[n - 1]));
            assert forall|f: int, g: int| 0 <= f < g < files@.len() implies seq_lt(#[trigger] files@[f].target_type@, #[trigger] files@[g].target_type@) by {
                if g < f0.len() {
                    assert(files@[f] == f0[f] && files@[g] == f0[g]);
                } else {
                    assert(files@[f] == f0[f]);
                }
            }
            assert forall|f: int| 0 <= f < files@.len() implies (#[trigger] files@[f]).file_name@ == files@[f].target_type@ + ".tf"@
                && files@[f].blocks@.len() > 0 by {
                if f < f0.len() {
                    assert(files@[f] == f0[f]);
                }
            }
        }
    } else {
        proof {
            assert(flat_blocks(files@) =~= all);
            assert(flat_types(files@) =~= types);
        }
    }
    proof {
        assert(emission_order(rs@, order@));
    }
    Ok(files)
}

proof fn lemma_emission_lt_strict(rs: Seq<MappedResource>, a: int, b: int)
    requires
        a != b,
    ensures
        emission_lt(rs, a, b) || emission_lt(rs, b, a),
        !(emission_lt(rs, a, b) && emission_lt(rs, b, a)),
{
    let (x, y) = (rs[a], rs[b]);
    lemma_seq_lt_total(x.target_type@, y.target_type@);
    lemma_seq_lt_total(x.target_addr@, y.target_addr@);
    lemma_seq_lt_asymmetric(x.target_type@, y.target_type@);
    lemma_seq_lt_asymmetric(y.target_type@, x.target_type@);
    lemma_seq_lt_asymmetric(x.target_addr@, y.target_addr@);
    lemma_seq_lt_asymmetric(y.target_addr@, x.target_addr@);
    lemma_seq_lt_irreflexive(x.target_type@);
    lemma_seq_lt_irreflexive(x.target_addr@);
}

/// A list of `n` distinct positions below `n` holds every position below `n`.
proof fn lemma_order_covers(n: int, order: Seq<usize>, p: int)
    requires
        order.len() == n,
        forall|k: int| 0 <= k < n ==> #[trigger] order[k] < n,
        forall|k: int, l: int| 0 <= k < l < n ==> #[trigger] order[k] != #[trigger] order[l],
        0 <= p < n,
    ensures
        exists|k: int| 0 <= k < n && order[k] == p,
{
    let s = order.map_values(|x: usize| x as int);
    assert(s.no_duplicates()) by {
        assert forall|i: int, j: int| 0 <= i < s.len() && 0 <= j < s.len() && i != j implies s[i] != s[j] by {
            if i < j {
                assert(order[i] != order[j]);
            } else {
                assert(order[j] != order[i]);
            }
        }
    }
    s.unique_seq_to_set();
    vstd::set_lib::lemma_int_range(0, n);
    assert(s.to_set().subset_of(vstd::set_lib::set_int_range(0, n))) by {
        assert forall|x: int| s.to_set().contains(x) implies vstd::set_lib::set_int_range(0, n).contains(x) by {
            assert(s.contains(x));
            let i = choose|i: int| 0 <= i < s.len() && s[i] == x;
            assert(order[i] < n);
        }
    }
    vstd::seq_lib::seq_to_set_is_finite(s);
    vstd::set_lib::lemma_subset_equality(s.to_set(), vstd::set_lib::set_int_range(0, n));
    assert(vstd::set_lib::set_int_range(0, n).contains(p));
    assert(s.to_set().contains(p));
    assert(s.contains(p));
    let k = choose|k: int| 0 <= k < s.len() && s[k] == p;
    assert(order[k] == p);
}

proof fn lemma_emission_prefix(rs: Seq<MappedResource>, o1: Seq<usize>, o2: Seq<usize>, m: int)
    requires
        emission_order(rs, o1),
        emission_order(rs, o2),
        0 <= m <= rs.len(),
    ensures
        forall|k: int| 0 <= k < m ==> o1[k] == o2[k],
    decreases m,
{
    if m > 0 {
        lemma_emission_prefix(rs, o1, o2, m - 1);
        let k = m - 1;
        let a = o1[k] as int;
        let b = o2[k] as int;
        if a != b {
            lemma_emission_lt_strict(rs, a, b);
            if emission_lt(rs, a, b) {
                lemma_order_covers(rs.len() as int, o2, a);
                let j = choose|j: int| 0 <= j < rs.len() && o2[j] == a;
                if j < k {
                    assert(o1[j] == o2[j]);
                    assert(o1[j] != o1[k]);
                } else {
                    assert(emission_lt(rs, o2[k] as int, o2[j] as int));
                }
            } else {
                lemma_order_covers(rs.len() as int, o1, b);
                let j = choose|j: int| 0 <= j < rs.len() && o1[j] == b;
                if j < k {
                    assert(o1[j] == o2[j]);
                    assert(o2[j] != o2[k]);
                } else {
                    assert(emission_lt(rs, o1[k] as int, o1[j] as int));
                }
            }
        }
    }
}

/// The emission order of a list of resources is unique: the positions
/// sorted by target type, then address, then plan position.
pub proof fn law_emission_order_is_unique(rs: Seq<MappedResource>, o1: Seq<usize>, o2: Seq<usize>)
    requires
        emission_order(rs, o1),
        emission_order(rs, o2),
    ensures
        o1 == o2,
{
    lemma_emission_prefix(rs, o1, o2, rs.len() as int);
    assert(o1 =~= o2);
}

/// Whether two expressions are the same, string by string.
pub open spec fn same_expr(a: HclExpr, b: HclExpr) -> bool
    decreases a,
{
    match a {
        HclExpr::Str(x) => b matches HclExpr::Str(y) && x@ == y@,
        HclExpr::Number(x) => b == HclExpr::Number(x),
        HclExpr::Bool(x) => b == HclExpr::Bool(x),
        HclExpr::Ref { head, attrs } => b matches HclExpr::Ref { head: h, attrs: t } && head@ == h@ && attrs@.map_values(
            |x: String| x@,
        ) == t@.map_values(|x: String| x@),
        HclExpr::Array(xs) => match b {
            HclExpr::Array(ys) => xs@.len() == ys@.len() && forall|i: int|
                0 <= i < xs@.len() ==> same_expr(#[trigger] xs@[i], ys@[i]),
            _ => false,
        },
        HclExpr::Object(xs) => match b {
            HclExpr::Object(ys) => xs@.len() == ys@.len() && forall|i: int|
                0 <= i < xs@.len() ==> (#[trigger] xs@[i]).0@ == ys@[i].0@ && same_expr(xs@[i].1, ys@[i].1),
            _ => false,
        },
    }
}

/// Whether two blocks are the same, string by string.
pub open spec fn same_block(a: ResourceBlock, b: ResourceBlock) -> bool {
    &&& a.target_type@ == b.target_type@
    &&& a.name@ == b.name@
    &&& a.attributes@.len() == b.attributes@.len()
    &&& forall|i: int| 0 <= i < a.attributes@.len() ==> (#[trigger] a.attributes@[i]).0@ == b.attributes@[i].0@
        && same_expr(a.attributes@[i].1, b.attributes@[i].1)
}

/// Whether two lists of files are the same, string by string: names,
/// types and blocks, in order.
pub open spec fn same_files(a: Seq<PlannedFile>, b: Seq<PlannedFile>) -> bool {
    &&& a.len() == b.len()
    &&& forall|f: int| 0 <= f < a.len() ==> {
        &&& (#[trigger] a[f]).target_type@ == b[f].target_type@
        &&& a[f].file_name@ == b[f].file_name@
        &&& a[f].blocks@.len() == b[f].blocks@.len()
        &&& forall|j: int| 0 <= j < a[f].blocks@.len() ==> same_block(#[trigger] a[f].blocks@[j], b[f].blocks@[j])
    }
}

proof fn lemma_converts_same(v: AttributeValue, a: HclExpr, b: HclExpr)
    requires
        value_converts(v, a),
        value_converts(v, b),
    ensures
        same_expr(a, b),
    decreases v,
{
    match v {
        AttributeValue::List(items) => {
            if let (HclExpr::Array(xs), HclExpr::Array(ys)) = (a, b) {
                assert forall|i: int| 0 <= i < xs@.len() implies same_expr(#[trigger] xs@[i], ys@[i]) by {
                    lemma_converts_same(items@[i], xs@[i], ys@[i]);
                }
            }
        },
        AttributeValue::Object(entries) => {
            if let (HclExpr::Object(xs), HclExpr::Object(ys)) = (a, b) {
                assert forall|i: int| 0 <= i < xs@.len() implies (#[trigger] xs@[i]).0@ == ys@[i].0@ && same_expr(
                    xs@[i].1,
                    ys@[i].1,
                ) by {
                    lemma_converts_same(entries@[i].1, xs@[i].1, ys@[i].1);
                }
            }
        },
        _ => {},
    }
}

proof fn lemma_block_same(r: MappedResource, b1: ResourceBlock, b2: ResourceBlock)
    requires
        curated_block_outcome(r, Ok(b1)),
        curated_block_outcome(r, Ok(b2)),
    ensures
        same_block(b1, b2),
{
    let (req, opt) = curated_template(r.target_type@)->0;
    let steps = emit_steps(r, req, opt);
    assert forall|i: int| 0 <= i < b1.attributes@.len() implies (#[trigger] b1.attributes@[i]).0@ == b2.attributes@[i].0@
        && same_expr(b1.attributes@[i].1, b2.attributes@[i].1) by {
        assert(emits_step(steps[i], b1.attributes@[i]));
        assert(emits_step(steps[i], b2.attributes@[i]));
        if let EmitStep::Present(k, v) = steps[i] {
            lemma_converts_same(v, b1.attributes@[i].1, b2.attributes@[i].1);
        }
    }
}

proof fn lemma_error_same(r: MappedResource, e1: GeneratorError, e2: GeneratorError)
    requires
        curated_block_outcome(r, Err(e1)),
        curated_block_outcome(r, Err(e2)),
    ensures
        generator_error_text(e1) == generator_error_text(e2),
{
}

proof fn lemma_flat_types_below(fs: Seq<PlannedFile>, t: Seq<char>)
    requires
        forall|f: int| 0 <= f < fs.len() ==> seq_lt(#[trigger] fs[f].target_type@, t),
    ensures
        forall|i: int| 0 <= i < flat_types(fs).len() ==> seq_lt(#[trigger] flat_types(fs)[i], t),
    decreases fs.len(),
{
    if fs.len() > 0 {
        let p = fs.drop_last();
        assert forall|f: int| 0 <= f < p.len() implies seq_lt(#[trigger] p[f].target_type@, t) by {
            assert(p[f] == fs[f]);
        }
        lemma_flat_types_below(p, t);
        let tail = Seq::new(fs.last().blocks@.len(), |i: int| fs.last().target_type@);
        assert(flat_types(fs) == flat_types(p) + tail);
        assert forall|i: int| 0 <= i < flat_types(fs).len() implies seq_lt(#[trigger] flat_types(fs)[i], t) by {
            if i >= flat_types(p).len() {
                assert(flat_types(fs)[i] == tail[i - flat_types(p).len()]);
                assert(fs[fs.len() - 1] == fs.last());
            } else {
                assert(flat_types(fs)[i] == flat_types(p)[i]);
            }
        }
    }
}

proof fn lemma_flat_nonempty(fs: Seq<PlannedFile>)
    requires
        files_well_formed(fs),
        fs.len() > 0,
    ensures
        flat_types(fs).len() > 0,
{
    assert(fs[fs.len() - 1].blocks@.len() > 0);
    assert(fs[fs.len() - 1] == fs.last());
}

proof fn lemma_files_well_formed_prefix(fs: Seq<PlannedFile>)
    requires
        files_well_formed(fs),
        fs.len() > 0,
    ensures
        files_well_formed(fs.drop_last()),
        forall|f: int| 0 <= f < fs.len() - 1 ==> seq_lt(#[trigger] fs[f].target_type@, fs.last().target_type@),
{
    let p = fs.drop_last();
    assert forall|f: int| 0 <= f < p.len() implies (#[trigger] p[f]).file_name@ == p[f].target_type@ + ".tf"@
        && p[f].blocks@.len() > 0 by {
        assert(p[f] == fs[f]);
    }
    assert forall|f: int, g: int| 0 <= f < g < p.len() implies seq_lt(#[trigger] p[f].target_type@, #[trigger] p[g].target_type@) by {
        assert(p[f] == fs[f] && p[g] == fs[g]);
    }
    assert forall|f: int| 0 <= f < fs.len() - 1 implies seq_lt(#[trigger] fs[f].target_type@, fs.last().target_type@) by {
        assert(fs[fs.len() - 1] == fs.last());
        assert(seq_lt(fs[f].target_type@, fs[fs.len() - 1].target_type@));
    }
}

/// Well-formed files are determined, up to the text of their strings, by
/// the types and blocks that run through them.
proof fn lemma_same_grouping(f1: Seq<PlannedFile>, f2: Seq<PlannedFile>)
    requires
        files_well_formed(f1),
        files_well_formed(f2),
        flat_types(f1) == flat_types(f2),
        flat_blocks(f1).len() == flat_blocks(f2).len(),
        forall|k: int| 0 <= k < flat_blocks(f1).len() ==> same_block(#[trigger] flat_blocks(f1)[k], flat_blocks(f2)[k]),
    ensures
        same_files(f1, f2),
    decreases f1.len(),
{
    lemma_flat_lens(f1);
    lemma_flat_lens(f2);
    if f1.len() == 0 {
        if f2.len() > 0 {
            lemma_flat_nonempty(f2);
        }
    } else if f2.len() == 0 {
        lemma_flat_nonempty(f1);
    } else {
        let (p1, p2) = (f1.drop_last(), f2.drop_last());
        let (l1, l2) = (f1.last(), f2.last());
        let n = flat_types(f1).len();
        let (n1, n2) = (l1.blocks@.len(), l2.blocks@.len());
        let t1 = Seq::new(n1, |i: int| l1.target_type@);
        let t2 = Seq::new(n2, |i: int| l2.target_type@);
        assert(flat_types(f1) == flat_types(p1) + t1);
        assert(flat_types(f2) == flat_types(p2) + t2);
        assert(flat_blocks(f1) == flat_blocks(p1) + l1.blocks@);
        assert(flat_blocks(f2) == flat_blocks(p2) + l2.blocks@);
        lemma_flat_lens(p1);
        lemma_flat_lens(p2);
        lemma_files_well_formed_prefix(f1);
        lemma_files_well_formed_prefix(f2);
        lemma_flat_types_below(p1, l1.target_type@);
        lemma_flat_types_below(p2, l2.target_type@);
        assert(f1[f1.len() - 1] == l1 && f2[f2.len() - 1] == l2);
        // The last entries name the last files' types.
        assert(flat_types(f1)[n - 1] == l1.target_type@);
        assert(flat_types(f2)[n - 1] == l2.target_type@);
        let t = l1.target_type@;
        lemma_seq_lt_irreflexive(t);
        if n1 < n2 {
            let i = n - n2;
            assert(flat_types(f2)[i] == t2[i - flat_types(p2).len()]);
            assert(flat_types(f1)[i] == flat_types(p1)[i]);
            assert(seq_lt(flat_types(p1)[i], t));
        } else if n2 < n1 {
            let i = n - n1;
            assert(flat_types(f1)[i] == t1[i - flat_types(p1).len()]);
            assert(flat_types(f2)[i] == flat_types(p2)[i]);
            assert(seq_lt(flat_types(p2)[i], t));
        }
        assert(n1 == n2);
        let m = n - n1;
        assert(flat_types(p1) == flat_types(f1).take(m));
        assert(flat_types(p2) == flat_types(f2).take(m));
        assert forall|k: int| 0 <= k < flat_blocks(p1).len() implies same_block(#[trigger] flat_blocks(p1)[k], flat_blocks(p2)[k]) by {
            assert(flat_blocks(f1)[k] == flat_blocks(p1)[k]);
            assert(flat_blocks(f2)[k] == flat_blocks(p2)[k]);
        }
        lemma_same_grouping(p1, p2);
        assert forall|f: int| 0 <= f < f1.len() implies {
            &&& (#[trigger] f1[f]).target_type@ == f2[f].target_type@
            &&& f1[f].file_name@ == f2[f].file_name@
            &&& f1[f].blocks@.len() == f2[f].blocks@.len()
            &&& forall|j: int| 0 <= j < f1[f].blocks@.len() ==> same_block(#[trigger] f1[f].blocks@[j], f2[f].blocks@[j])
        } by {
            if f < f1.len() - 1 {
                assert(f1[f] == p1[f] && f2[f] == p2[f]);
            } else {
                assert forall|j: int| 0 <= j < l1.blocks@.len() implies same_block(#[trigger] l1.blocks@[j], l2.blocks@[j]) by {
                    assert(flat_blocks(f1)[m + j] == l1.blocks@[j]);
                    assert(flat_blocks(f2)[m + j] == l2.blocks@[j]);
                }
            }
        }
    }
}

/// Emission is deterministic: two emission plans of the same resources
/// agree. Both succeed or both fail; on success they hold the same files
/// (names, types and blocks, in the same order, string by string); on
/// failure the errors read the same.
pub proof fn law_emission_is_deterministic(
    rs: Seq<MappedResource>,
    r1: Result<Vec<PlannedFile>, GeneratorError>,
    r2: Result<Vec<PlannedFile>, GeneratorError>,
)
    requires
        emission_result(rs, r1),
        emission_result(rs, r2),
    ensures
        match (r1, r2) {
            (Ok(a), Ok(b)) => same_files(a@, b@),
            (Err(a), Err(b)) => generator_error_text(a) == generator_error_text(b),
            _ => false,
        },
{
    let o1 = choose|order: Seq<usize>| #[trigger] emission_order(rs, order) && match r1 {
        Ok(files) => files_well_formed(files@) && flat_types(files@) == Seq::new(
            order.len(),
            |k: int| rs[order[k] as int].target_type@,
        ) && blocks_outcome(rs, order, Ok(flat_blocks(files@))),
        Err(e) => blocks_outcome(rs, order, Err(e)),
    };
    let o2 = choose|order: Seq<usize>| #[trigger] emission_order(rs, order) && match r2 {
        Ok(files) => files_well_formed(files@) && flat_types(files@) == Seq::new(
            order.len(),
            |k: int| rs[order[k] as int].target_type@,
        ) && blocks_outcome(rs, order, Ok(flat_blocks(files@))),
        Err(e) => blocks_outcome(rs, order, Err(e)),
    };
    law_emission_order_is_unique(rs, o1, o2);
    let o = o1;
    match (r1, r2) {
        (Ok(a), Ok(b)) => {
            let (ba, bb) = (flat_blocks(a@), flat_blocks(b@));
            assert forall|k: int| 0 <= k < ba.len() implies same_block(#[trigger] ba[k], bb[k]) by {
                lemma_block_same(rs[o[k] as int], ba[k], bb[k]);
            }
            lemma_same_grouping(a@, b@);
        },
        (Err(a), Err(b)) => {
            let ka = choose|k: int|
                0 <= k < o.len() && curated_fails(rs[#[trigger] o[k] as int]) && (forall|j: int|
                    0 <= j < k ==> !curated_fails(rs[#[trigger] o[j] as int])) && curated_block_outcome(rs[o[k] as int], Err(a));
            let kb = choose|k: int|
                0 <= k < o.len() && curated_fails(rs[#[trigger] o[k] as int]) && (forall|j: int|
                    0 <= j < k ==> !curated_fails(rs[#[trigger] o[j] as int])) && curated_block_outcome(rs[o[k] as int], Err(b));
            if ka < kb {
                assert(!curated_fails(rs[o[ka] as int]));
            } else if kb < ka {
                assert(!curated_fails(rs[o[kb] as int]));
            }
            lemma_error_same(rs[o[ka] as int], a, b);
        },
        (Ok(a), Err(b)) => {
            let kb = choose|k: int|
                0 <= k < o.len() && curated_fails(rs[#[trigger] o[k] as int]) && (forall|j: int|
                    0 <= j < k ==> !curated_fails(rs[#[trigger] o[j] as int])) && curated_block_outcome(rs[o[k] as int], Err(b));
            assert(!curated_fails(rs[o[kb] as int]));
        },
        (Err(a), Ok(b)) => {
            let ka = choose|k: int|
                0 <= k < o.len() && curated_fails(rs[#[trigger] o[k] as int]) && (forall|j: int|
                    0 <= j < k ==> !curated_fails(rs[#[trigger] o[j] as int])) && curated_block_outcome(rs[o[k] as int], Err(a));
            assert(!curated_fails(rs[o[ka] as int]));
        },
    }
}

/// Emission does not depend on the order of the plan's resources when
/// their addresses are distinct: for resources `rs2` that list those of
/// `rs1` in another order (`rs2[perm[i]] == rs1[i]`), the two emission
/// plans agree as `law_emission_is_deterministic` states.
pub proof fn law_emission_ignores_input_order(
    rs1: Seq<MappedResource>,
    rs2: Seq<MappedResource>,
    perm: Seq<usize>,
    r1: Result<Vec<PlannedFile>, GeneratorError>,
    r2: Result<Vec<PlannedFile>, GeneratorError>,
)
    requires
        rs2.len() == rs1.len(),
        perm.len() == rs1.len(),
        forall|i: int| 0 <= i < rs1.len() ==> #[trigger] perm[i] < rs1.len() && rs2[perm[i] as int] == rs1[i],
        forall|i: int, j: int| 0 <= i < j < rs1.len() ==> #[trigger] perm[i] != #[trigger] perm[j],
        forall|i: int, j: int| 0 <= i < j < rs1.len() ==> (#[trigger] rs1[i]).target_addr@ != (#[trigger] rs1[j]).target_addr@,
        emission_result(rs1, r1),
        emission_result(rs2, r2),
    ensures
        match (r1, r2) {
            (Ok(a), Ok(b)) => same_files(a@, b@),
            (Err(a), Err(b)) => generator_error_text(a) == generator_error_text(b),
            _ => false,
        },
{
    let n = rs1.len() as int;
    let o1 = choose|order: Seq<usize>| #[trigger] emission_order(rs1, order) && match r1 {
        Ok(files) => files_well_formed(files@) && flat_types(files@) == Seq::new(
            order.len(),
            |k: int| rs1[order[k] as int].target_type@,
        ) && blocks_outcome(rs1, order, Ok(flat_blocks(files@))),
        Err(e) => blocks_outcome(rs1, order, Err(e)),
    };
    let o = Seq::new(o1.len(), |k: int| perm[o1[k] as int]);
    assert forall|k: int| 0 <= k < n implies #[trigger] rs2[o[k] as int] == rs1[o1[k] as int] && o[k] < n by {
        assert(o1[k] < n);
    }
    assert forall|k: int, l: int| 0 <= k < l < n implies #[trigger] o[k] != #[trigger] o[l] by {
        assert(o1[k] != o1[l]);
        if o1[k] < o1[l] {
            assert(perm[o1[k] as int] != perm[o1[l] as int]);
        } else {
            assert(perm[o1[l] as int] != perm[o1[k] as int]);
        }
    }
    assert forall|k: int, l: int| 0 <= k < l < n implies emission_lt(rs2, #[trigger] o[k] as int, #[trigger] o[l] as int) by {
        let (a, b) = (o1[k] as int, o1[l] as int);
        assert(emission_lt(rs1, a, b));
        assert(rs2[o[k] as int] == rs1[a] && rs2[o[l] as int] == rs1[b]);
        assert(a != b);
        if a < b {
            assert(rs1[a].target_addr@ != rs1[b].target_addr@);
        } else {
            assert(rs1[b].target_addr@ != rs1[a].target_addr@);
        }
    }
    assert(emission_order(rs2, o));
    match r1 {
        Ok(files) => {
            assert(Seq::new(o.len(), |k: int| rs2[o[k] as int].target_type@) =~= Seq::new(
                o1.len(),
                |k: int| rs1[o1[k] as int].target_type@,
            ));
            let bs = flat_blocks(files@);
            assert forall|k: int| 0 <= k < o.len() implies !curated_fails(rs2[#[trigger] o[k] as int])
                && curated_block_outcome(rs2[o[k] as int], Ok(bs[k])) by {
                assert(rs2[o[k] as int] == rs1[o1[k] as int]);
            }
            assert(blocks_outcome(rs2, o, Ok(bs)));
        },
        Err(e) => {
            let k = choose|k: int|
                0 <= k < o1.len() && curated_fails(rs1[#[trigger] o1[k] as int]) && (forall|j: int|
                    0 <= j < k ==> !curated_fails(rs1[#[trigger] o1[j] as int])) && curated_block_outcome(
                    rs1[o1[k] as int],
                    Err(e),
                );
            assert(rs2[o[k] as int] == rs1[o1[k] as int]);
            assert forall|j: int| 0 <= j < k implies !curated_fails(rs2[#[trigger] o[j] as int]) by {
                assert(rs2[o[j] as int] == rs1[o1[j] as int]);
            }
            assert(blocks_outcome(rs2, o, Err(e)));
        },
    }
    assert(emission_result(rs2, r1));
    law_emission_is_deterministic(rs2, r1, r2);
}

/// Where the backups of a run live: `<cwd>/.terrashift/runs/<run_id>/backups`.
pub open spec fn spec_backup_root(cwd: Seq<char>, run_id: u128) -> Seq<char> {
    path_join(path_join(path_join(path_join(cwd, ".terrashift"@), "runs"@), uuid_text(run_id)), "backups"@)
}

/// The backup directory of a run.
pub fn backup_root(cwd: &str, run_id: u128) -> (r: String)
    ensures
        r@ == spec_backup_root(cwd@, run_id),
{
    let a = join_path(cwd, ".terrashift");
    let b = join_path(a.as_str(), "runs");
    let id = uuid_string(run_id);
    let c = join_path(b.as_str(), id.as_str());
    join_path(c.as_str(), "backups")
}

/// Whether an OS error code means a move across devices (17, Windows'
/// ERROR_NOT_SAME_DEVICE, or 18, EXDEV), where a copy and remove must
/// replace the rename.
pub fn is_cross_device(raw_os_error: Option<i32>) -> (r: bool)
    ensures
        r == (raw_os_error == Some(17i32) || raw_os_error == Some(18i32)),
{
    match raw_os_error {
        Some(c) => c == 17 || c == 18,
        None => false,
    }
}

/// The display text of a backup failure.
pub open spec fn backup_error_text(e: BackupError) -> Seq<char> {
    match e {
        BackupError::SourceMissing(p) => "source path '"@ + p@ + "' does not exist (cannot back up)"@,
        BackupError::CreateDir { path, message } => "create backup dir '"@ + path@ + "': "@ + message@,
        BackupError::Move { src, dst, message } => "rename '"@ + src@ + "' → '"@ + dst@ + "': "@ + message@,
        BackupError::Restore { src, dst, message } => "restore '"@ + src@ + "' → '"@ + dst@ + "': "@ + message@,
    }
}

impl BackupError {
    /// The display text of this failure.
    pub fn message(&self) -> (r: String)
        ensures
            r@ == backup_error_text(*self),
    {
        match self {
            BackupError::SourceMissing(p) => {
                let mut s = owned("source path '");
                s.append(p.as_str());
                s.append("' does not exist (cannot back up)");
                s
            },
            BackupError::CreateDir { path, message } => {
                let mut s = owned("create backup dir '");
                s.append(path.as_str());
                s.append("': ");
                s.append(message.as_str());
                s
            },
            BackupError::Move { src, dst, message } => {
                let mut s = owned("rename '");
                s.append(src.as_str());
                s.append("' → '");
                s.append(dst.as_str());
                s.append("': ");
                s.append(message.as_str());
                s
            },
            BackupError::Restore { src, dst, message } => {
                let mut s = owned("restore '");
                s.append(src.as_str());
                s.append("' → '");
                s.append(dst.as_str());
                s.append("': ");
                s.append(message.as_str());
                s
            },
        }
    }
}

/// The display text of a generator failure.
pub open spec fn generator_error_text(e: GeneratorError) -> Seq<char> {
    match e {
        GeneratorError::TemplateMiss { target_type } => "template miss for target_type '"@ + target_type@
            + "': no Stage 1 template registered"@,
        GeneratorError::Hcl(m) => "HCL serialization failed: "@ + m@,
        GeneratorError::Io { path, message } => "filesystem I/O at "@ + path@ + ": "@ + message@,
        GeneratorError::Backup(b) => backup_error_text(b),
        GeneratorError::Audit(m) => "audit append failed: "@ + m@,
        GeneratorError::InvalidOutputDir(p) => "output_dir '"@ + p@ + "' is not a directory"@,
        GeneratorError::Lookup(l) => l.spec_message(),
        GeneratorError::EmptyReference => "empty reference value: Mapper emitted AttributeValue::Reference(\"\") — Article IV bug upstream"@,
        GeneratorError::RollbackPartial { total, failures, details } => "rollback partial failure: "@ + decimal(
            failures as nat,
        ) + " of "@ + decimal(total as nat) + " files failed to restore: "@ + crate::scanner::debug_string_list(
            str_views(details@),
        ),
    }
}

impl GeneratorError {
    /// The display text of this failure.
    pub fn message(&self) -> (r: String)
        ensures
            r@ == generator_error_text(*self),
    {
        match self {
            GeneratorError::TemplateMiss { target_type } => {
                let mut s = owned("template miss for target_type '");
                s.append(target_type.as_str());
                s.append("': no Stage 1 template registered");
                s
            },
            GeneratorError::Hcl(m) => {
                let mut s = owned("HCL serialization failed: ");
                s.append(m.as_str());
                s
            },
            GeneratorError::Io { path, message } => {
                let mut s = owned("filesystem I/O at ");
                s.append(path.as_str());
                s.append(": ");
                s.append(message.as_str());
                s
            },
            GeneratorError::Backup(b) => b.message(),
            GeneratorError::Audit(m) => {
                let mut s = owned("audit append failed: ");
                s.append(m.as_str());
                s
            },
            GeneratorError::InvalidOutputDir(p) => {
                let mut s = owned("output_dir '");
                s.append(p.as_str());
                s.append("' is not a directory");
                s
            },
            GeneratorError::Lookup(l) => l.message(),
            GeneratorError::EmptyReference => owned(
                "empty reference value: Mapper emitted AttributeValue::Reference(\"\") — Article IV bug upstream",
            ),
            GeneratorError::RollbackPartial { total, failures, details } => {
                let mut s = owned("rollback partial failure: ");
                append_decimal(&mut s, *failures as u64);
                s.append(" of ");
                append_decimal(&mut s, *total as u64);
                s.append(" files failed to restore: ");
                s.append(crate::scanner::debug_labels(details).as_str());
                s
            },
        }
    }
}

/// Where a file is backed up: `<backup root>/<op id>/<file name>`, the
/// name `unknown_item` when the file has none.
pub open spec fn spec_backup_path(cwd: Seq<char>, run_id: u128, op_id: u128, file_name: Option<Seq<char>>) -> Seq<char> {
    path_join(
        path_join(spec_backup_root(cwd, run_id), uuid_text(op_id)),
        match file_name {
            Some(n) => n,
            None => "unknown_item"@,
        },
    )
}

/// The backup path of a file for one backup operation (`op_id` is the
/// operation's fresh UUID).
pub fn backup_path(cwd: &str, run_id: u128, op_id: u128, file_name: Option<&str>) -> (r: String)
    ensures
        r@ == spec_backup_path(cwd@, run_id, op_id, match file_name {
            Some(n) => Some(n@),
            None => None,
        }),
{
    let root = backup_root(cwd, run_id);
    let op = uuid_string(op_id);
    let dir = join_path(root.as_str(), op.as_str());
    match file_name {
        Some(n) => join_path(dir.as_str(), n),
        None => join_path(dir.as_str(), "unknown_item"),
    }
}

/// How a rename went.
pub enum RenameOutcome {
    Renamed,
    /// The OS error code, if any, and the error's text.
    Failed { raw_os_error: Option<i32>, message: String },
}

/// What a move does after its rename.
pub enum MoveNext {
    /// The file is in place.
    Done,
    /// The rename crossed devices: copy, then remove the source.
    CopyThenRemove,
    /// The move failed.
    Fail(BackupError),
}

/// The step after renaming `src` to `dst` while backing up: done, the
/// cross-device fallback, or a `Move` error.
pub fn after_backup_rename(src: &str, dst: &str, outcome: RenameOutcome) -> (r: MoveNext)
    ensures
        match outcome {
            RenameOutcome::Renamed => r is Done,
            RenameOutcome::Failed { raw_os_error, message } => if raw_os_error == Some(17i32) || raw_os_error
                == Some(18i32) {
                r is CopyThenRemove
            } else {
                r matches MoveNext::Fail(BackupError::Move { src: s, dst: d, message: m }) && s@ == src@ && d@
                    == dst@ && m@ == message@
            },
        },
{
    match outcome {
        RenameOutcome::Renamed => MoveNext::Done,
        RenameOutcome::Failed { raw_os_error, message } => if is_cross_device(raw_os_error) {
            MoveNext::CopyThenRemove
        } else {
            MoveNext::Fail(BackupError::Move { src: owned(src), dst: owned(dst), message })
        },
    }
}

/// The step after renaming a backup back to its original path: done, the
/// cross-device fallback, or a `Restore` error.
pub fn after_restore_rename(backup: &str, original: &str, outcome: RenameOutcome) -> (r: MoveNext)
    ensures
        match outcome {
            RenameOutcome::Renamed => r is Done,
            RenameOutcome::Failed { raw_os_error, message } => if raw_os_error == Some(17i32) || raw_os_error
                == Some(18i32) {
                r is CopyThenRemove
            } else {
                r matches MoveNext::Fail(BackupError::Restore { src: s, dst: d, message: m }) && s@ == backup@
                    && d@ == original@ && m@ == message@
            },
        },
{
    match outcome {
        RenameOutcome::Renamed => MoveNext::Done,
        RenameOutcome::Failed { raw_os_error, message } => if is_cross_device(raw_os_error) {
            MoveNext::CopyThenRemove
        } else {
            MoveNext::Fail(BackupError::Restore { src: owned(backup), dst: owned(original), message })
        },
    }
}

/// A failed copy-and-remove fallback of a restore, reported as a
/// `Restore` of the backup to the original path (other errors unchanged).
pub fn restore_fallback_error(backup: &str, original: &str, e: BackupError) -> (r: BackupError)
    ensures
        match e {
            BackupError::Move { message, .. } => r matches BackupError::Restore { src, dst, message: m }
                && src@ == backup@ && dst@ == original@ && m@ == message@,
            _ => r == e,
        },
{
    match e {
        BackupError::Move { message, .. } => BackupError::Restore { src: owned(backup), dst: owned(original), message },
        other => other,
    }
}

/// What rolling back one emitted file does.
pub enum RollbackAction {
    /// Move the backup back over the file.
    Restore { backup: String, original: String },
    /// The file was new: delete it.
    Remove(String),
    /// Nothing to undo.
    Nothing,
}

/// Rolling back an emitted file: restore its backup if it has one, else
/// remove it if it still exists.
pub fn rollback_action(file: &EmittedFile, exists: bool) -> (r: RollbackAction)
    ensures
        match file.backup_path {
            Some(b) => r matches RollbackAction::Restore { backup, original } && backup@ == b@ && original@
                == file.path@,
            None => if exists {
                r matches RollbackAction::Remove(p) && p@ == file.path@
            } else {
                r is Nothing
            },
        },
{
    match &file.backup_path {
        Some(b) => RollbackAction::Restore { backup: b.clone(), original: file.path.clone() },
        None => if exists {
            RollbackAction::Remove(file.path.clone())
        } else {
            RollbackAction::Nothing
        },
    }
}

/// The rollback failure lines: `<path>: <error>` for each emitted file
/// whose rollback failed, in order.
pub open spec fn rollback_details(files: Seq<EmittedFile>, failures: Seq<Option<GeneratorError>>) -> Seq<Seq<char>>
    decreases files.len(),
{
    if files.len() == 0 {
        Seq::empty()
    } else {
        let rest = rollback_details(files.drop_last(), failures);
        let i = files.len() - 1;
        if i < failures.len() && failures[i] is Some {
            rest.push(files.last().path@ + ": "@ + generator_error_text(failures[i]->0))
        } else {
            rest
        }
    }
}

/// The result of a rollback, given each file's failure (if any): every
/// file was attempted; any failure makes a `RollbackPartial` error with
/// the total, the number of failures and one line per failure.
pub fn rollback_emitted(emitted: &Vec<EmittedFile>, failures: &Vec<Option<GeneratorError>>) -> (r: Result<(), GeneratorError>)
    ensures
        rollback_details(emitted@, failures@).len() == 0 ==> r is Ok,
        rollback_details(emitted@, failures@).len() > 0 ==> (r matches Err(
            GeneratorError::RollbackPartial { total, failures: n, details },
        ) && total == emitted@.len() && n == rollback_details(emitted@, failures@).len() && str_views(details@)
            == rollback_details(emitted@, failures@)),
{
    let mut details: Vec<String> = Vec::new();
    let mut i: usize = 0;
    while i < emitted.len()
        invariant
            i <= emitted@.len(),
            str_views(details@) == rollback_details(emitted@.take(i as int), failures@),
            details@.len() <= i,
        decreases emitted@.len() - i,
    {
        proof {
            assert(emitted@.take(i + 1).drop_last() =~= emitted@.take(i as int));
            assert(emitted@.take(i + 1).last() == emitted@[i as int]);
        }
        if i < failures.len() {
            match &failures[i] {
                Some(e) => {
                    let ghost before = details@;
                    let mut line = owned(emitted[i].path.as_str());
                    line.append(": ");
                    let m = e.message();
                    line.append(m.as_str());
                    details.push(line);
                    proof {
                        assert(str_views(details@) =~= str_views(before).push(
                            emitted@[i as int].path@ + ": "@ + generator_error_text(failures@[i as int]->0),
                        ));
                    }
                },
                None => {},
            }
        }
        i = i + 1;
    }
    proof {
        assert(emitted@.take(emitted@.len() as int) =~= emitted@);
    }
    if details.len() == 0 {
        Ok(())
    } else {
        let n = details.len();
        Err(GeneratorError::RollbackPartial { total: emitted.len(), failures: n, details })
    }
}

/// One file the Generator wrote.
#[derive(Debug)]
pub struct EmittedFile {
    pub path: String,
    /// Where the overwritten file was moved, if one was.
    pub backup_path: Option<String>,
    /// Whether an existing file was overwritten (and backed up).
    pub overwrote: bool,
}

/// What a Generator run produced.
#[derive(Debug)]
pub struct GeneratedArtifacts {
    /// Every file written, in order.
    pub files: Vec<String>,
    /// The backups made, in order.
    pub backups: Vec<String>,
    /// How many files were overwritten.
    pub backups_created: usize,
    /// Per-file detail, kept for rollback.
    pub emitted: Vec<EmittedFile>,
}

/// The backup paths among the emitted files, in order.
pub open spec fn backup_paths(es: Seq<EmittedFile>) -> Seq<Seq<char>>
    decreases es.len(),
{
    if es.len() == 0 {
        Seq::empty()
    } else {
        match es.last().backup_path {
            Some(p) => backup_paths(es.drop_last()).push(p@),
            None => backup_paths(es.drop_last()),
        }
    }
}

/// How many emitted files overwrote an existing one.
pub open spec fn overwrite_count(es: Seq<EmittedFile>) -> nat
    decreases es.len(),
{
    if es.len() == 0 {
        0
    } else {
        overwrite_count(es.drop_last()) + if es.last().overwrote { 1nat } else { 0 }
    }
}

impl GeneratedArtifacts {
    /// The artifacts of the emitted files: their paths, their backups and
    /// the count of overwrites.
    pub fn from_emitted(emitted: Vec<EmittedFile>) -> (r: Self)
        ensures
            str_views(r.files@) == emitted@.map_values(|e: EmittedFile| e.path@),
            str_views(r.backups@) == backup_paths(emitted@),
            r.backups_created == overwrite_count(emitted@),
            r.emitted == emitted,
    {
        let mut files: Vec<String> = Vec::new();
        let mut backups: Vec<String> = Vec::new();
        let mut count: usize = 0;
        let mut i: usize = 0;
        proof {
            assert(emitted@.take(0) =~= Seq::<EmittedFile>::empty());
        }
        while i < emitted.len()
            invariant
                i <= emitted@.len(),
                str_views(files@) == emitted@.take(i as int).map_values(|e: EmittedFile| e.path@),
                str_views(backups@) == backup_paths(emitted@.take(i as int)),
                count == overwrite_count(emitted@.take(i as int)),
                count <= i,
            decreases emitted@.len() - i,
        {
            let e = &emitted[i];
            proof {
                assert(emitted@.take(i + 1).drop_last() =~= emitted@.take(i as int));
                assert(emitted@.take(i + 1).last() == emitted@[i as int]);
            }
            let ghost fb = files@;
            let p = e.path.clone();
            let ghost pv = p@;
            files.push(p);
            proof {
                assert(str_views(files@) =~= str_views(fb).push(pv));
                assert(emitted@.take(i + 1).map_values(|e: EmittedFile| e.path@) =~= emitted@.take(i as int).map_values(
                    |e: EmittedFile| e.path@,
                ).push(emitted@[i as int].path@));
                assert(str_views(files@) =~= emitted@.take(i + 1).map_values(|e: EmittedFile| e.path@));
            }
            match &e.backup_path {
                Some(b) => {
                    let ghost bb = backups@;
                    backups.push(b.clone());
                    proof {
                        assert(str_views(backups@) =~= str_views(bb).push(b@));
                    }
                },
                None => {},
            }
            if e.overwrote {
                count = count + 1;
            }
            i = i + 1;
        }
        proof {
            assert(emitted@.take(emitted@.len() as int) =~= emitted@);
        }
        GeneratedArtifacts { files, backups, backups_created: count, emitted }
    }
}

/// The Generator front: the template registry.
pub struct Generator {
    pub registry: TemplateRegistry,
}

impl Generator {
    /// A Generator with the hand-curated templates.
    pub fn new() -> (r: Self)
        ensures
            forall|tt: Seq<char>| #[trigger] r.registry.derived(tt) is None,
            r.registry.derived_count() == 0,
            r.registry.derived_types() == Seq::<Seq<char>>::empty(),
    {
        Generator { registry: TemplateRegistry::stage1() }
    }

    /// How many templates are registered.
    pub fn template_count(&self) -> (r: usize)
        requires
            self.registry.derived_count() + curated_types().len() <= usize::MAX,
        ensures
            r == curated_types().len() + self.registry.derived_count(),
    {
        self.registry.len()
    }
}

} // verus!
