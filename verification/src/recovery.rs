//! The Recovery agent: a bounded loop that asks the LLM for fixes to a
//! plan the Validator rejected, applies the proposed fix tools to the plan,
//! and re-validates between rounds.
use vstd::prelude::*;
use crate::mapper::{AttributeValue, MappedResource, MappingPlan};
use crate::text::{owned, str_eq, append_decimal, decimal};
use crate::validator::{ValidationError, ValidationReport, error_text, errors_view, ErrorView};

verus! {

/// The text result of one fix tool call, and whether it counts as an error.
pub struct FixOutcome {
    pub result: String,
    pub is_error: bool,
}

/// A tool call's arguments, as the LLM sent them (a JSON value).
#[derive(Debug)]
pub enum JsonValue {
    Null,
    Bool(bool),
    /// `bits` holds the IEEE-754 bits of the number as a double, `None`
    /// when it has no double form; `text` is its JSON text.
    Number { bits: Option<u64>, text: String },
    String(String),
    Array(Vec<JsonValue>),
    /// Members in key order.
    Object(Vec<(String, JsonValue)>),
}

/// A tool call failed before it could run (bad arguments).
#[derive(Debug)]
pub struct ToolCallError {
    pub message: String,
}

/// Whether the JSON value `j` converts to the attribute value `a`: same
/// shape, strings and booleans equal, numbers by their double bits,
/// object members in the same order.
pub open spec fn json_converts_to(j: JsonValue, a: AttributeValue) -> bool
    decreases j,
{
    match j {
        JsonValue::Null => false,
        JsonValue::Bool(b) => a == AttributeValue::Bool(b),
        JsonValue::Number { bits, text } => bits is Some && a == AttributeValue::Number(bits->0),
        JsonValue::String(s) => a matches AttributeValue::String(t) && t@ == s@,
        JsonValue::Array(items) => match a {
            AttributeValue::List(out) => out@.len() == items@.len() && forall|i: int|
                0 <= i < items@.len() ==> json_converts_to(#[trigger] items@[i], out@[i]),
            _ => false,
        },
        JsonValue::Object(members) => match a {
            AttributeValue::Object(out) => out@.len() == members@.len() && forall|i: int|
                0 <= i < members@.len() ==> (#[trigger] out@[i]).0@ == members@[i].0@
                    && json_converts_to(members@[i].1, out@[i].1),
            _ => false,
        },
    }
}

/// The first conversion failure in `j` (depth first, in order): a null,
/// or a number with no double form.
pub open spec fn json_failure(j: JsonValue) -> Option<Seq<char>>
    decreases j, 1int,
{
    match j {
        JsonValue::Null => Some("null is not a valid attribute value"@),
        JsonValue::Number { bits, text } => if bits is Some {
            None
        } else {
            Some("number out of range: "@ + text@)
        },
        JsonValue::Array(items) => items_failure(items@, 0),
        JsonValue::Object(members) => members_failure(members@, 0),
        _ => None,
    }
}

/// The first failure among `items[from..]`.
pub open spec fn items_failure(items: Seq<JsonValue>, from: int) -> Option<Seq<char>>
    decreases items, 0int, items.len() - from,
{
    if from < 0 || from >= items.len() {
        None
    } else {
        match json_failure(items[from]) {
            Some(m) => Some(m),
            None => items_failure(items, from + 1),
        }
    }
}

/// The first failure among the member values of `members[from..]`.
pub open spec fn members_failure(members: Seq<(String, JsonValue)>, from: int) -> Option<Seq<char>>
    decreases members, 0int, members.len() - from,
{
    if from < 0 || from >= members.len() {
        None
    } else {
        match json_failure(members[from].1) {
            Some(m) => Some(m),
            None => members_failure(members, from + 1),
        }
    }
}

proof fn lemma_items_failure_skip(s: Seq<JsonValue>, from: int, to: int)
    requires
        0 <= from <= to <= s.len(),
        forall|k: int| from <= k < to ==> json_failure(#[trigger] s[k]) is None,
    ensures
        items_failure(s, from) == items_failure(s, to),
    decreases to - from,
{
    if from < to {
        lemma_items_failure_skip(s, from + 1, to);
    }
}

proof fn lemma_members_failure_skip(s: Seq<(String, JsonValue)>, from: int, to: int)
    requires
        0 <= from <= to <= s.len(),
        forall|k: int| from <= k < to ==> json_failure(#[trigger] s[k].1) is None,
    ensures
        members_failure(s, from) == members_failure(s, to),
    decreases to - from,
{
    if from < to {
        lemma_members_failure_skip(s, from + 1, to);
    }
}

/// Converts a tool call's JSON argument to an attribute value: strings,
/// numbers, booleans, arrays and objects keep their shape; a null, or a
/// number with no double form, is refused with the first such failure.
pub fn json_value_to_attribute_value(value: &JsonValue) -> (r: Result<AttributeValue, ToolCallError>)
    ensures
        match r {
            Ok(a) => json_failure(*value) is None && json_converts_to(*value, a),
            Err(e) => json_failure(*value) == Some(e.message@),
        },
    decreases value,
{
    match value {
        JsonValue::Null => Err(ToolCallError { message: owned("null is not a valid attribute value") }),
        JsonValue::Bool(b) => Ok(AttributeValue::Bool(*b)),
        JsonValue::Number { bits, text } => match bits {
            Some(x) => Ok(AttributeValue::Number(*x)),
            None => {
                let mut m = owned("number out of range: ");
                m.append(text.as_str());
                Err(ToolCallError { message: m })
            },
        },
        JsonValue::String(s) => Ok(AttributeValue::String(s.clone())),
        JsonValue::Array(items) => {
            let mut out: Vec<AttributeValue> = Vec::new();
            let mut i: usize = 0;
            while i < items.len()
                invariant
                    *value == JsonValue::Array(*items),
                    i <= items@.len(),
                    out@.len() == i,
                    forall|k: int| 0 <= k < i ==> json_failure(#[trigger] items@[k]) is None,
                    forall|k: int| 0 <= k < i ==> json_converts_to(#[trigger] items@[k], out@[k]),
                decreases items@.len() - i,
            {
                proof {
                    assert(decreases_to!(*value => items@[i as int]));
                }
                match json_value_to_attribute_value(&items[i]) {
                    Ok(a) => {
                        out.push(a);
                    },
                    Err(e) => {
                        proof {
                            lemma_items_failure_skip(items@, 0, i as int);
                        }
                        return Err(e);
                    },
                }
                i = i + 1;
            }
            proof {
                lemma_items_failure_skip(items@, 0, i as int);
            }
            Ok(AttributeValue::List(out))
        },
        JsonValue::Object(members) => {
            let mut out: Vec<(String, AttributeValue)> = Vec::new();
            let mut i: usize = 0;
            while i < members.len()
                invariant
                    *value == JsonValue::Object(*members),
                    i <= members@.len(),
                    out@.len() == i,
                    forall|k: int| 0 <= k < i ==> json_failure(#[trigger] members@[k].1) is None,
                    forall|k: int| 0 <= k < i ==> (#[trigger] out@[k]).0@ == members@[k].0@
                        && json_converts_to(members@[k].1, out@[k].1),
                decreases members@.len() - i,
            {
                proof {
                    assert(decreases_to!(*value => members@[i as int].1));
                }
                match json_value_to_attribute_value(&members[i].1) {
                    Ok(a) => {
                        out.push((members[i].0.clone(), a));
                    },
                    Err(e) => {
                        proof {
                            lemma_members_failure_skip(members@, 0, i as int);
                        }
                        return Err(e);
                    },
                }
                i = i + 1;
            }
            proof {
                lemma_members_failure_skip(members@, 0, i as int);
            }
            Ok(AttributeValue::Object(out))
        },
    }
}

/// The value of the first member named `key` in `members`.
pub open spec fn member_value(members: Seq<(String, JsonValue)>, key: Seq<char>) -> Option<JsonValue> {
    if exists|i: int| 0 <= i < members.len() && #[trigger] members[i].0@ == key {
        Some(members[choose|i: int| 0 <= i < members.len() && #[trigger] members[i].0@ == key
            && forall|j: int| 0 <= j < i ==> #[trigger] members[j].0@ != key].1)
    } else {
        None
    }
}

/// The member `key` of an object argument; `None` for a missing key or a
/// value that is not an object.
pub open spec fn json_member(args: JsonValue, key: Seq<char>) -> Option<JsonValue> {
    match args {
        JsonValue::Object(members) => member_value(members@, key),
        _ => None,
    }
}

/// The string member `key` of an object argument, if it is a string.
pub open spec fn json_str_member(args: JsonValue, key: Seq<char>) -> Option<Seq<char>> {
    match json_member(args, key) {
        Some(JsonValue::String(s)) => Some(s@),
        _ => None,
    }
}

/// The message for a missing or non-string argument.
pub open spec fn bad_arg_message(key: Seq<char>) -> Seq<char> {
    "missing or non-string argument: '"@ + key + "'"@
}

pub(crate) fn get_member<'a>(args: &'a JsonValue, key: &str) -> (r: Option<&'a JsonValue>)
    ensures
        match r {
            Some(v) => json_member(*args, key@) == Some(*v),
            None => json_member(*args, key@) is None,
        },
{
    match args {
        JsonValue::Object(members) => {
            let mut i: usize = 0;
            while i < members.len()
                invariant
                    *args == JsonValue::Object(*members),
                    i <= members@.len(),
                    forall|j: int| 0 <= j < i ==> #[trigger] members@[j].0@ != key@,
                decreases members@.len() - i,
            {
                if str_eq(members[i].0.as_str(), key) {
                    proof {
                        let ms = members@;
                        assert(ms[i as int].0@ == key@);
                        assert(exists|k: int| 0 <= k < ms.len() && #[trigger] ms[k].0@ == key@);
                        let c = choose|k: int| 0 <= k < ms.len() && #[trigger] ms[k].0@ == key@
                            && forall|j: int| 0 <= j < k ==> #[trigger] ms[j].0@ != key@;
                        assert(0 <= i < ms.len() && ms[i as int].0@ == key@
                            && forall|j: int| 0 <= j < i ==> #[trigger] ms[j].0@ != key@);
                        if c < i {
                            assert(ms[c].0@ != key@);
                        } else if c > i {
                            assert(ms[i as int].0@ != key@);
                        }
                        assert(c == i);
                        assert(member_value(ms, key@) == Some(ms[i as int].1));
                    }
                    return Some(&members[i].1);
                }
                i = i + 1;
            }
            None
        },
        _ => None,
    }
}

/// The string argument `key`, or the missing-argument error.
pub(crate) fn string_arg(args: &JsonValue, key: &str) -> (r: Result<String, ToolCallError>)
    ensures
        match json_str_member(*args, key@) {
            Some(s) => r matches Ok(v) && v@ == s,
            None => r matches Err(e) && e.message@ == bad_arg_message(key@),
        },
{
    match get_member(args, key) {
        Some(JsonValue::String(s)) => Ok(s.clone()),
        _ => {
            let mut m = owned("missing or non-string argument: '");
            m.append(key);
            m.append("'");
            Err(ToolCallError { message: m })
        },
    }
}

/// The index of the first resource whose `target_addr` is `addr`.
pub open spec fn first_addr(rs: Seq<MappedResource>, addr: Seq<char>) -> Option<int> {
    if exists|i: int| 0 <= i < rs.len() && #[trigger] rs[i].target_addr@ == addr {
        Some(choose|i: int| 0 <= i < rs.len() && #[trigger] rs[i].target_addr@ == addr
            && forall|j: int| 0 <= j < i ==> #[trigger] rs[j].target_addr@ != addr)
    } else {
        None
    }
}

/// The resources with a `target_addr` other than `addr`, in order.
pub open spec fn without_addr(rs: Seq<MappedResource>, addr: Seq<char>) -> Seq<MappedResource>
    decreases rs.len(),
{
    if rs.len() == 0 {
        rs
    } else {
        let prev = without_addr(rs.drop_last(), addr);
        if rs.last().target_addr@ == addr {
            prev
        } else {
            prev.push(rs.last())
        }
    }
}

/// What setting `attribute` to `value` on the first resource at
/// `target_addr` does to a plan: only that resource's attribute changes;
/// with no resource at that address nothing changes.
#[verifier::opaque]
pub open spec fn attribute_set(
    before: MappingPlan,
    after: MappingPlan,
    target_addr: Seq<char>,
    attribute: Seq<char>,
    value: AttributeValue,
) -> bool {
    &&& after.run_id == before.run_id
    &&& after.source_provider == before.source_provider
    &&& after.target_provider == before.target_provider
    &&& match first_addr(before.resources@, target_addr) {
        Some(i) => {
            &&& after.resources@.len() == before.resources@.len()
            &&& forall|k: int| 0 <= k < before.resources@.len() && k != i
                ==> #[trigger] after.resources@[k] == before.resources@[k]
            &&& after.resources@[i].source_addr == before.resources@[i].source_addr
            &&& after.resources@[i].target_addr == before.resources@[i].target_addr
            &&& after.resources@[i].target_type == before.resources@[i].target_type
            &&& after.resources@[i].target_name == before.resources@[i].target_name
            &&& after.resources@[i].dependencies == before.resources@[i].dependencies
            &&& forall|q: Seq<char>| #[trigger] after.resources@[i].attr(q) == if q == attribute {
                Some(value)
            } else {
                before.resources@[i].attr(q)
            }
        },
        None => after.resources == before.resources,
    }
}

/// What `set_attribute` does to a plan and answers.
pub open spec fn set_attribute_effect(
    before: MappingPlan,
    after: MappingPlan,
    target_addr: Seq<char>,
    attribute: Seq<char>,
    value: AttributeValue,
    r: FixOutcome,
) -> bool {
    &&& attribute_set(before, after, target_addr, attribute, value)
    &&& r.is_error == (first_addr(before.resources@, target_addr) is None)
    &&& !r.is_error ==> r.result@ == "set_attribute: "@ + target_addr + "."@ + attribute + " updated"@
    &&& r.is_error ==> r.result@ == "set_attribute: target_addr '"@ + target_addr + "' not found in plan"@
}

/// Sets `attribute` to `value` on the first resource at `target_addr`;
/// answers whether there was one.
pub fn set_attribute_in_plan(plan: &mut MappingPlan, target_addr: &str, attribute: &str, value: AttributeValue) -> (found: bool)
    ensures
        attribute_set(*old(plan), *final(plan), target_addr@, attribute@, value),
        found == (first_addr(old(plan).resources@, target_addr@) is Some),
{
    reveal(attribute_set);
    match find_addr(&plan.resources, target_addr) {
        Some(i) => {
            let mut res = plan.resources.remove(i);
            res.attributes.insert(owned(attribute), value);
            plan.resources.insert(i, res);
            true
        },
        None => false,
    }
}

/// What `change_target_type` does to a plan and answers.
#[verifier::opaque]
pub open spec fn change_target_type_effect(
    before: MappingPlan,
    after: MappingPlan,
    target_addr: Seq<char>,
    new_type: Seq<char>,
    r: FixOutcome,
) -> bool {
    &&& after.run_id == before.run_id
    &&& after.source_provider == before.source_provider
    &&& after.target_provider == before.target_provider
    &&& match first_addr(before.resources@, target_addr) {
        Some(i) => {
            let b = before.resources@[i];
            let a = after.resources@[i];
            &&& after.resources@.len() == before.resources@.len()
            &&& forall|k: int| 0 <= k < before.resources@.len() && k != i
                ==> #[trigger] after.resources@[k] == before.resources@[k]
            &&& a.source_addr == b.source_addr
            &&& a.target_name == b.target_name
            &&& a.attributes == b.attributes
            &&& a.dependencies == b.dependencies
            &&& a.target_type@ == new_type
            &&& a.target_addr@ == new_type + "."@ + b.target_name@
            &&& !r.is_error
            &&& r.result@ == "change_target_type: "@ + target_addr + " ("@ + b.target_type@ + " → "@
                + new_type + "); new addr "@ + a.target_addr@
        },
        None => {
            &&& after.resources == before.resources
            &&& r.is_error
            &&& r.result@ == "change_target_type: target_addr '"@ + target_addr + "' not found"@
        },
    }
}

/// What `remove_resource` does to a plan and answers.
#[verifier::opaque]
pub open spec fn remove_resource_effect(
    before: MappingPlan,
    after: MappingPlan,
    target_addr: Seq<char>,
    r: FixOutcome,
) -> bool {
    &&& after.run_id == before.run_id
    &&& after.source_provider == before.source_provider
    &&& after.target_provider == before.target_provider
    &&& after.resources@ == without_addr(before.resources@, target_addr)
    &&& r.is_error == (first_addr(before.resources@, target_addr) is None)
    &&& r.is_error ==> r.result@ == "remove_resource: target_addr '"@ + target_addr + "' not found"@
    &&& !r.is_error ==> r.result@ == "remove_resource: removed "@ + target_addr
}

/// Position of the first resource with `target_addr == addr`.
fn find_addr(rs: &Vec<MappedResource>, addr: &str) -> (r: Option<usize>)
    ensures
        match r {
            Some(i) => first_addr(rs@, addr@) == Some(i as int) && i < rs@.len(),
            None => first_addr(rs@, addr@) is None,
        },
{
    let mut i: usize = 0;
    while i < rs.len()
        invariant
            i <= rs@.len(),
            forall|j: int| 0 <= j < i ==> #[trigger] rs@[j].target_addr@ != addr@,
        decreases rs@.len() - i,
    {
        if str_eq(rs[i].target_addr.as_str(), addr) {
            proof {
                assert(rs@[i as int].target_addr@ == addr@);
                let c = choose|k: int| 0 <= k < rs@.len() && #[trigger] rs@[k].target_addr@ == addr@
                    && forall|j: int| 0 <= j < k ==> #[trigger] rs@[j].target_addr@ != addr@;
                assert(0 <= c < rs@.len() && rs@[c].target_addr@ == addr@);
                if c < i {
                } else if c > i {
                    assert(rs@[i as int].target_addr@ != addr@);
                }
            }
            return Some(i);
        }
        i = i + 1;
    }
    None
}

/// `set_attribute`: sets or replaces `attribute` on the first resource
/// with `target_addr`; an error outcome, with the plan untouched, when no
/// resource has that address.
pub fn apply_set_attribute(plan: &mut MappingPlan, target_addr: &str, attribute: &str, value: AttributeValue) -> (r: FixOutcome)
    ensures
        set_attribute_effect(*old(plan), *final(plan), target_addr@, attribute@, value, r),
{
    if set_attribute_in_plan(plan, target_addr, attribute, value) {
        let mut s = owned("set_attribute: ");
        s.append(target_addr);
        s.append(".");
        s.append(attribute);
        s.append(" updated");
        FixOutcome { result: s, is_error: false }
    } else {
        let mut s = owned("set_attribute: target_addr '");
        s.append(target_addr);
        s.append("' not found in plan");
        FixOutcome { result: s, is_error: true }
    }
}

/// `change_target_type`: gives the first resource with `target_addr` the
/// type `new_type` and the address `new_type.target_name`; an error
/// outcome, with the plan untouched, when no resource has that address.
pub fn apply_change_target_type(plan: &mut MappingPlan, target_addr: &str, new_type: &str) -> (r: FixOutcome)
    ensures
        change_target_type_effect(*old(plan), *final(plan), target_addr@, new_type@, r),
{
    reveal(change_target_type_effect);
    match find_addr(&plan.resources, target_addr) {
        Some(i) => {
            let mut res = plan.resources.remove(i);
            let old_type = owned(res.target_type.as_str());
            res.target_type = owned(new_type);
            let mut new_addr = owned(new_type);
            new_addr.append(".");
            new_addr.append(res.target_name.as_str());
            res.target_addr = new_addr.clone();
            plan.resources.insert(i, res);
            let mut s = owned("change_target_type: ");
            s.append(target_addr);
            s.append(" (");
            s.append(old_type.as_str());
            s.append(" → ");
            s.append(new_type);
            s.append("); new addr ");
            s.append(new_addr.as_str());
            FixOutcome { result: s, is_error: false }
        },
        None => {
            let mut s = owned("change_target_type: target_addr '");
            s.append(target_addr);
            s.append("' not found");
            FixOutcome { result: s, is_error: true }
        },
    }
}

/// `remove_resource`: drops every resource with `target_addr`; an error
/// outcome when there was none.
pub fn apply_remove_resource(plan: &mut MappingPlan, target_addr: &str) -> (r: FixOutcome)
    ensures
        remove_resource_effect(*old(plan), *final(plan), target_addr@, r),
{
    reveal(remove_resource_effect);
    let ghost s0 = plan.resources@;
    let ghost a = target_addr@;
    let before = plan.resources.len();
    let mut i: usize = 0;
    let ghost mut k: int = 0;
    proof {
        assert(s0.take(0) =~= Seq::<MappedResource>::empty());
        assert(plan.resources@.take(0) =~= Seq::<MappedResource>::empty());
        assert(plan.resources@.skip(0) =~= s0.skip(0));
    }
    while i < plan.resources.len()
        invariant
            0 <= k <= s0.len(),
            i <= plan.resources@.len(),
            before == s0.len(),
            a == target_addr@,
            plan.resources@.take(i as int) == without_addr(s0.take(k), a),
            plan.resources@.skip(i as int) == s0.skip(k),
            plan.resources@.len() - i == s0.len() - k,
            plan.run_id == old(plan).run_id,
            plan.source_provider == old(plan).source_provider,
            plan.target_provider == old(plan).target_provider,
            s0 == old(plan).resources@,
        decreases plan.resources@.len() - i,
    {
        let ghost cur = plan.resources@;
        proof {
            assert(cur[i as int] == cur.skip(i as int)[0]);
            assert(s0[k] == s0.skip(k)[0]);
            assert(s0.take(k + 1).drop_last() =~= s0.take(k));
            assert(s0.take(k + 1).last() == s0[k]);
        }
        if str_eq(plan.resources[i].target_addr.as_str(), target_addr) {
            plan.resources.remove(i);
            proof {
                assert(plan.resources@.take(i as int) =~= cur.take(i as int));
                assert(plan.resources@.skip(i as int) =~= cur.skip(i + 1));
                assert(s0.skip(k + 1) =~= s0.skip(k).skip(1));
                assert(cur.skip(i + 1) =~= cur.skip(i as int).skip(1));
                k = k + 1;
            }
        } else {
            proof {
                assert(cur.take(i + 1) =~= cur.take(i as int).push(cur[i as int]));
                assert(s0.skip(k + 1) =~= s0.skip(k).skip(1));
                assert(cur.skip(i + 1) =~= cur.skip(i as int).skip(1));
                k = k + 1;
            }
            i = i + 1;
        }
    }
    proof {
        assert(k == s0.len());
        assert(s0.take(k) =~= s0);
        assert(plan.resources@.take(i as int) =~= plan.resources@);
        lemma_without_addr_len(s0, a);
        assert((first_addr(s0, a) is Some) == has_addr(s0, a));
    }
    if plan.resources.len() < before {
        let mut s = owned("remove_resource: removed ");
        s.append(target_addr);
        FixOutcome { result: s, is_error: false }
    } else {
        let mut s = owned("remove_resource: target_addr '");
        s.append(target_addr);
        s.append("' not found");
        FixOutcome { result: s, is_error: true }
    }
}

/// The answer to a tool call that names no recovery tool.
pub open spec fn unknown_tool_message(name: Seq<char>) -> Seq<char> {
    "unknown recovery tool: "@ + name + " — no plan mutation occurred"@
}

/// Whether `r` is the argument error `message`, with the plan untouched.
pub open spec fn refused(before: MappingPlan, after: MappingPlan, r: Result<FixOutcome, ToolCallError>, message: Seq<char>) -> bool {
    &&& after == before
    &&& r matches Err(e) && e.message@ == message
}

/// A `set_attribute` call: `target_addr` and `attribute` must be string
/// arguments and `value` present and convertible, else the call is refused
/// with the plan untouched.
#[verifier::opaque]
pub open spec fn set_attribute_call(before: MappingPlan, after: MappingPlan, args: JsonValue, r: Result<FixOutcome, ToolCallError>) -> bool {
    match json_str_member(args, "target_addr"@) {
        None => refused(before, after, r, bad_arg_message("target_addr"@)),
        Some(ta) => match json_str_member(args, "attribute"@) {
            None => refused(before, after, r, bad_arg_message("attribute"@)),
            Some(at) => match json_member(args, "value"@) {
                None => refused(before, after, r, "set_attribute: missing 'value'"@),
                Some(raw) => match json_failure(raw) {
                    Some(m) => refused(before, after, r, m),
                    None => r matches Ok(o) && exists|a: AttributeValue|
                        json_converts_to(raw, a) && #[trigger] set_attribute_effect(before, after, ta, at, a, o),
                },
            },
        },
    }
}

/// A `change_target_type` call: `target_addr` and `new_type` must be
/// string arguments.
#[verifier::opaque]
pub open spec fn change_target_type_call(before: MappingPlan, after: MappingPlan, args: JsonValue, r: Result<FixOutcome, ToolCallError>) -> bool {
    match json_str_member(args, "target_addr"@) {
        None => refused(before, after, r, bad_arg_message("target_addr"@)),
        Some(ta) => match json_str_member(args, "new_type"@) {
            None => refused(before, after, r, bad_arg_message("new_type"@)),
            Some(nt) => r matches Ok(o) && change_target_type_effect(before, after, ta, nt, o),
        },
    }
}

/// A `remove_resource` call: `target_addr` must be a string argument.
#[verifier::opaque]
pub open spec fn remove_resource_call(before: MappingPlan, after: MappingPlan, args: JsonValue, r: Result<FixOutcome, ToolCallError>) -> bool {
    match json_str_member(args, "target_addr"@) {
        None => refused(before, after, r, bad_arg_message("target_addr"@)),
        Some(ta) => r matches Ok(o) && remove_resource_effect(before, after, ta, o),
    }
}

/// What one fix tool call does to the plan and answers: the named tool
/// with its arguments; an unknown tool name is an error outcome with the
/// plan untouched.
pub open spec fn tool_call_effect(
    before: MappingPlan,
    after: MappingPlan,
    name: Seq<char>,
    args: JsonValue,
    r: Result<FixOutcome, ToolCallError>,
) -> bool {
    if name == "set_attribute"@ {
        set_attribute_call(before, after, args, r)
    } else if name == "change_target_type"@ {
        change_target_type_call(before, after, args, r)
    } else if name == "remove_resource"@ {
        remove_resource_call(before, after, args, r)
    } else {
        &&& after == before
        &&& r matches Ok(o) && o.is_error && o.result@ == unknown_tool_message(name)
    }
}

/// Applies the fixes the LLM proposes to the plan under repair and counts
/// the ones that succeeded.
pub struct FixApplier {
    /// Tool calls so far that completed without error (wrapping).
    pub fix_count: usize,
}

impl FixApplier {
    /// A fresh applier with no fix counted.
    pub fn new() -> (r: Self)
        ensures
            r.fix_count == 0,
    {
        FixApplier { fix_count: 0 }
    }

    /// Runs the tool `name` with `args` on `plan`; a call that completes
    /// without error adds one to the fix count.
    pub fn execute_tool_call(&mut self, plan: &mut MappingPlan, name: &str, args: &JsonValue) -> (r: Result<FixOutcome, ToolCallError>)
        ensures
            tool_call_effect(*old(plan), *final(plan), name@, *args, r),
            final(self).fix_count == if r matches Ok(o) && !o.is_error {
                if old(self).fix_count == usize::MAX { 0 } else { old(self).fix_count + 1 }
            } else {
                old(self).fix_count as int
            },
    {
        let r = run_tool(plan, name, args);
        match &r {
            Ok(o) => {
                if !o.is_error {
                    self.fix_count = self.fix_count.wrapping_add(1);
                }
            },
            Err(_) => {},
        }
        r
    }
}

fn run_set_attribute(plan: &mut MappingPlan, args: &JsonValue) -> (r: Result<FixOutcome, ToolCallError>)
    ensures
        set_attribute_call(*old(plan), *final(plan), *args, r),
{
    reveal(set_attribute_call);
    proof {
        reveal_strlit("target_addr");
        reveal_strlit("attribute");
        reveal_strlit("value");
    }
    let target_addr = match string_arg(args, "target_addr") {
        Ok(v) => v,
        Err(e) => return Err(e),
    };
    let attribute = match string_arg(args, "attribute") {
        Ok(v) => v,
        Err(e) => return Err(e),
    };
    let raw = match get_member(args, "value") {
        Some(v) => v,
        None => return Err(ToolCallError { message: owned("set_attribute: missing 'value'") }),
    };
    let value = match json_value_to_attribute_value(raw) {
        Ok(v) => v,
        Err(e) => return Err(e),
    };
    let ghost a = value;
    let o = apply_set_attribute(plan, target_addr.as_str(), attribute.as_str(), value);
    proof {
        assert(json_str_member(*args, "target_addr"@) == Some(target_addr@));
        assert(json_str_member(*args, "attribute"@) == Some(attribute@));
        assert(json_member(*args, "value"@) == Some(*raw));
        assert(json_failure(*raw) is None);
        assert(json_converts_to(*raw, a));
        assert(set_attribute_effect(*old(plan), *plan, target_addr@, attribute@, a, o));
        assert(exists|b: AttributeValue| json_converts_to(*raw, b) && #[trigger] set_attribute_effect(*old(plan), *plan, target_addr@, attribute@, b, o));
    }
    let r = Ok(o);
    assert(set_attribute_call(*old(plan), *plan, *args, r)) by {
        reveal(set_attribute_call);
        assert(json_str_member(*args, "target_addr"@) == Some(target_addr@));
        assert(json_str_member(*args, "attribute"@) == Some(attribute@));
        assert(json_member(*args, "value"@) == Some(*raw));
        assert(json_failure(*raw) is None);
        assert(r is Ok);
        assert(r->Ok_0 == o);
        assert(exists|b: AttributeValue| json_converts_to(*raw, b) && #[trigger] set_attribute_effect(*old(plan), *plan, target_addr@, attribute@, b, r->Ok_0));
    }
    r
}

fn run_change_target_type(plan: &mut MappingPlan, args: &JsonValue) -> (r: Result<FixOutcome, ToolCallError>)
    ensures
        change_target_type_call(*old(plan), *final(plan), *args, r),
{
    reveal(change_target_type_call);
    let target_addr = match string_arg(args, "target_addr") {
        Ok(v) => v,
        Err(e) => return Err(e),
    };
    let new_type = match string_arg(args, "new_type") {
        Ok(v) => v,
        Err(e) => return Err(e),
    };
    Ok(apply_change_target_type(plan, target_addr.as_str(), new_type.as_str()))
}

fn run_remove_resource(plan: &mut MappingPlan, args: &JsonValue) -> (r: Result<FixOutcome, ToolCallError>)
    ensures
        remove_resource_call(*old(plan), *final(plan), *args, r),
{
    reveal(remove_resource_call);
    let target_addr = match string_arg(args, "target_addr") {
        Ok(v) => v,
        Err(e) => return Err(e),
    };
    Ok(apply_remove_resource(plan, target_addr.as_str()))
}

fn run_tool(plan: &mut MappingPlan, name: &str, args: &JsonValue) -> (r: Result<FixOutcome, ToolCallError>)
    ensures
        tool_call_effect(*old(plan), *final(plan), name@, *args, r),
{
    if str_eq(name, "set_attribute") {
        run_set_attribute(plan, args)
    } else if str_eq(name, "change_target_type") {
        run_change_target_type(plan, args)
    } else if str_eq(name, "remove_resource") {
        run_remove_resource(plan, args)
    } else {
        let mut m = owned("unknown recovery tool: ");
        m.append(name);
        m.append(" — no plan mutation occurred");
        Ok(FixOutcome { result: m, is_error: true })
    }
}

/// The numbered list of validator errors, one per line: `1. <error>`.
pub open spec fn numbered_errors(es: Seq<ErrorView>) -> Seq<char>
    decreases es.len(),
{
    if es.len() == 0 {
        Seq::empty()
    } else {
        numbered_errors(es.drop_last()) + decimal(es.len()) + ". "@ + error_text(es.last()) + "\n"@
    }
}

/// The prompt that asks the LLM to repair a plan: the error count, the
/// providers and resource count, every validator error numbered, the fix
/// tools and the constraints.
pub open spec fn recovery_prompt(es: Seq<ErrorView>, source: Seq<char>, target: Seq<char>, n_resources: nat) -> Seq<char> {
    "You are the Terrashift Recovery agent. The Validator rejected the migration plan with "@
        + decimal(es.len())
        + " error(s). Your job: propose targeted fixes via the available tools until the Validator passes.\n"@
        + "\n"@ + "Source provider: "@ + source + "\nTarget provider: "@ + target + "\nResources in plan: "@
        + decimal(n_resources) + "\n\n"@ + "## Validator errors\n\n"@ + numbered_errors(es)
        + "\n## Available tools\n\n"@
        + "- `set_attribute(target_addr, attribute, value)` — fix UnknownAttribute / MissingRequiredAttribute\n"@
        + "- `change_target_type(target_addr, new_type)` — fix UnknownResourceType\n"@
        + "- `remove_resource(target_addr)` — last-resort for unrecoverable hallucinations\n"@
        + "\n## Constraints\n\n"@ + "- Only use the named tools. Do not invent new tools.\n"@
        + "- If you cannot fix an error, say so explicitly in your final answer; do not silently skip.\n"@
        + "- Each fix is auto-approved by the operator policy in this run.\n"@
}

/// The recovery prompt for `report` over `plan`.
pub fn build_recovery_prompt(report: &ValidationReport, plan: &MappingPlan) -> (r: String)
    ensures
        r@ == recovery_prompt(
            errors_view(report.errors@),
            plan.source_provider@,
            plan.target_provider@,
            plan.resources@.len(),
        ),
{
    let ghost es = errors_view(report.errors@);
    let mut p = owned("You are the Terrashift Recovery agent. The Validator rejected the migration plan with ");
    append_decimal(&mut p, report.errors.len() as u64);
    p.append(" error(s). Your job: propose targeted fixes via the available tools until the Validator passes.\n");
    p.append("\n");
    p.append("Source provider: ");
    p.append(plan.source_provider.as_str());
    p.append("\nTarget provider: ");
    p.append(plan.target_provider.as_str());
    p.append("\nResources in plan: ");
    append_decimal(&mut p, plan.resources.len() as u64);
    p.append("\n\n");
    p.append("## Validator errors\n\n");
    let ghost head = p@;
    let mut i: usize = 0;
    proof {
        assert(es.take(0) =~= Seq::<ErrorView>::empty());
        assert(p@ =~= head + numbered_errors(es.take(0)));
    }
    while i < report.errors.len()
        invariant
            es == errors_view(report.errors@),
            i <= es.len(),
            p@ == head + numbered_errors(es.take(i as int)),
        decreases es.len() - i,
    {
        proof {
            assert(es.take(i + 1).drop_last() =~= es.take(i as int));
            assert(es.take(i + 1).last() == report.errors@[i as int]@);
        }
        append_decimal(&mut p, (i + 1) as u64);
        p.append(". ");
        let m = report.errors[i].message();
        p.append(m.as_str());
        p.append("\n");
        proof {
            assert(p@ =~= head + numbered_errors(es.take(i + 1)));
        }
        i = i + 1;
    }
    proof {
        assert(es.take(es.len() as int) =~= es);
    }
    p.append("\n## Available tools\n\n");
    p.append("- `set_attribute(target_addr, attribute, value)` — fix UnknownAttribute / MissingRequiredAttribute\n");
    p.append("- `change_target_type(target_addr, new_type)` — fix UnknownResourceType\n");
    p.append("- `remove_resource(target_addr)` — last-resort for unrecoverable hallucinations\n");
    p.append("\n## Constraints\n\n");
    p.append("- Only use the named tools. Do not invent new tools.\n");
    p.append("- If you cannot fix an error, say so explicitly in your final answer; do not silently skip.\n");
    p.append("- Each fix is auto-approved by the operator policy in this run.\n");
    proof {
        assert(p@ =~= recovery_prompt(es, plan.source_provider@, plan.target_provider@, plan.resources@.len()));
    }
    p
}

/// Recovery settings: how many validate-then-fix rounds may run.
pub struct RecoveryConfig {
    pub max_iterations: usize,
}

impl RecoveryConfig {
    /// The default: five rounds.
    pub fn default_config() -> (r: Self)
        ensures
            r.max_iterations == 5,
    {
        RecoveryConfig { max_iterations: 5 }
    }
}

/// Why recovery stopped with an error.
#[derive(Debug)]
pub enum RecoveryError {
    /// The validator failed (its message).
    ValidatorFailure(String),
    /// The agent kernel failed (its message).
    AgentKernel(String),
    /// The configuration cannot run.
    InvalidConfig(String),
}

/// How recovery ended. Every way out is named.
#[derive(Debug)]
pub enum RecoveryOutcome {
    /// The validator passes: `iterations` rounds of fixes ran before it
    /// did, and `fixes_applied` fixes succeeded in all.
    Success { iterations: usize, fixes_applied: usize },
    /// The rounds ran out with errors left.
    MaxIterationsReached { iterations: usize, unresolved_errors: Vec<ValidationError> },
    /// The LLM answered without proposing a fix while errors remained.
    AgentGaveUp { iterations: usize, unresolved_errors: Vec<ValidationError> },
    /// The agent waits for an operator's approval of these tool calls.
    WaitingForApproval { iterations: usize, pending_tool_call_ids: Vec<String> },
}

/// How one bounded agent cycle ended.
pub enum AgentCycleEnd {
    /// The agent waits for approval of these tool calls.
    WaitingForApproval { pending_tool_call_ids: Vec<String> },
    /// The LLM gave a final answer.
    FinalAnswerReached,
    /// The cycle ended for another reason (such as its turn budget).
    Other,
}

/// The two endings that validate the plan once more before they report.
#[derive(Debug, Clone, Copy, PartialEq, Eq, Structural)]
pub enum FinalCheck {
    GaveUp,
    OutOfIterations,
}

/// What the driver of the recovery loop does next.
pub enum RecoveryAction {
    /// Validate the current plan.
    Validate,
    /// Run one bounded agent cycle with this prompt, applying its fix tool
    /// calls to the plan.
    RunAgent { prompt: String },
    /// Validate the plan once more and hand the report to `finish`.
    FinalValidate { check: FinalCheck, iterations: usize },
    /// Stop with this outcome.
    Finish(RecoveryOutcome),
}

/// The state of the recovery loop between the driver's steps.
pub struct RecoveryLoop {
    pub max_iterations: usize,
    /// The current round, from 1.
    pub iteration: usize,
    /// The fix count when the current round's agent cycle started.
    pub fixes_before: usize,
}

impl RecoveryLoop {
    /// The loop's invariant: the round lies within the budget.
    pub open spec fn wf(&self) -> bool {
        1 <= self.iteration <= self.max_iterations
    }

    /// A loop at round 1; refused when no round may run.
    pub fn start(config: &RecoveryConfig) -> (r: Result<RecoveryLoop, RecoveryError>)
        ensures
            config.max_iterations == 0 <==> r is Err,
            r matches Err(RecoveryError::InvalidConfig(m)) ==> m@ == "max_iterations must be > 0"@,
            r matches Err(e) ==> e is InvalidConfig,
            r matches Ok(l) ==> l.wf() && l.iteration == 1 && l.max_iterations == config.max_iterations
                && l.fixes_before == 0,
    {
        if config.max_iterations == 0 {
            return Err(RecoveryError::InvalidConfig(owned("max_iterations must be > 0")));
        }
        Ok(RecoveryLoop { max_iterations: config.max_iterations, iteration: 1, fixes_before: 0 })
    }

    /// After validating the current plan: a passing report ends in
    /// success after `iteration - 1` rounds of fixes; otherwise the agent
    /// runs with the recovery prompt, and the fix count is noted.
    pub fn on_validated(&mut self, report: &ValidationReport, plan: &MappingPlan, fix_count: usize) -> (r: RecoveryAction)
        requires
            old(self).wf(),
        ensures
            final(self).wf(),
            final(self).max_iterations == old(self).max_iterations,
            final(self).iteration == old(self).iteration,
            report.passed ==> final(self).fixes_before == old(self).fixes_before,
            report.passed ==> (r matches RecoveryAction::Finish(RecoveryOutcome::Success { iterations, fixes_applied })
                && iterations == old(self).iteration - 1 && fixes_applied == fix_count),
            !report.passed ==> final(self).fixes_before == fix_count,
            !report.passed ==> (r matches RecoveryAction::RunAgent { prompt } && prompt@ == recovery_prompt(
                errors_view(report.errors@),
                plan.source_provider@,
                plan.target_provider@,
                plan.resources@.len(),
            )),
    {
        if report.passed {
            RecoveryAction::Finish(
                RecoveryOutcome::Success { iterations: self.iteration - 1, fixes_applied: fix_count },
            )
        } else {
            self.fixes_before = fix_count;
            RecoveryAction::RunAgent { prompt: build_recovery_prompt(report, plan) }
        }
    }

    /// After an agent cycle: waiting for approval ends the loop at this
    /// round; a final answer with no fix this round means the agent gave
    /// up; otherwise the next round validates again, unless the budget is
    /// spent.
    pub fn on_agent_done(&mut self, end: AgentCycleEnd, fix_count: usize) -> (r: RecoveryAction)
        requires
            old(self).wf(),
        ensures
            final(self).wf(),
            final(self).max_iterations == old(self).max_iterations,
            final(self).fixes_before == old(self).fixes_before,
            ({
                let fixes_this_round = if fix_count >= old(self).fixes_before {
                    fix_count - old(self).fixes_before
                } else {
                    0
                };
                match end {
                    AgentCycleEnd::WaitingForApproval { pending_tool_call_ids } => {
                        &&& final(self).iteration == old(self).iteration
                        &&& r matches RecoveryAction::Finish(
                            RecoveryOutcome::WaitingForApproval { iterations, pending_tool_call_ids: ids },
                        ) && iterations == old(self).iteration && ids == pending_tool_call_ids
                    },
                    AgentCycleEnd::FinalAnswerReached if fixes_this_round == 0 => final(self).iteration
                        == old(self).iteration && r == (RecoveryAction::FinalValidate {
                        check: FinalCheck::GaveUp,
                        iterations: old(self).iteration,
                    }),
                    _ => if old(self).iteration == old(self).max_iterations {
                        final(self).iteration == old(self).iteration && r == (RecoveryAction::FinalValidate {
                            check: FinalCheck::OutOfIterations,
                            iterations: old(self).max_iterations,
                        })
                    } else {
                        final(self).iteration == old(self).iteration + 1 && r is Validate
                    },
                }
            }),
    {
        let fixes_this_round = fix_count.saturating_sub(self.fixes_before);
        match end {
            AgentCycleEnd::WaitingForApproval { pending_tool_call_ids } => {
                return RecoveryAction::Finish(
                    RecoveryOutcome::WaitingForApproval { iterations: self.iteration, pending_tool_call_ids },
                );
            },
            AgentCycleEnd::FinalAnswerReached => {
                if fixes_this_round == 0 {
                    return RecoveryAction::FinalValidate { check: FinalCheck::GaveUp, iterations: self.iteration };
                }
            },
            AgentCycleEnd::Other => {},
        }
        if self.iteration == self.max_iterations {
            RecoveryAction::FinalValidate { check: FinalCheck::OutOfIterations, iterations: self.max_iterations }
        } else {
            self.iteration = self.iteration + 1;
            RecoveryAction::Validate
        }
    }
}

/// The outcome of a final check: a plan with no errors left is a success
/// after `iterations` rounds with `fix_count` fixes; otherwise the ending
/// the check stands for, carrying the errors that remain.
pub fn finish_recovery(check: FinalCheck, iterations: usize, fix_count: usize, report: ValidationReport) -> (r: RecoveryOutcome)
    ensures
        report.errors@.len() == 0 ==> (r matches RecoveryOutcome::Success { iterations: n, fixes_applied }
            && n == iterations && fixes_applied == fix_count),
        report.errors@.len() > 0 && check == FinalCheck::GaveUp ==> (r matches RecoveryOutcome::AgentGaveUp {
            iterations: n,
            unresolved_errors,
        } && n == iterations && unresolved_errors == report.errors),
        report.errors@.len() > 0 && check == FinalCheck::OutOfIterations ==> (r matches RecoveryOutcome::MaxIterationsReached {
            iterations: n,
            unresolved_errors,
        } && n == iterations && unresolved_errors == report.errors),
{
    if report.errors.len() == 0 {
        return RecoveryOutcome::Success { iterations, fixes_applied: fix_count };
    }
    match check {
        FinalCheck::GaveUp => RecoveryOutcome::AgentGaveUp { iterations, unresolved_errors: report.errors },
        FinalCheck::OutOfIterations => RecoveryOutcome::MaxIterationsReached {
            iterations,
            unresolved_errors: report.errors,
        },
    }
}

/// After `remove_resource`, no resource at the removed address remains,
/// and every other resource is kept.
pub proof fn law_remove_resource_leaves_none(rs: Seq<MappedResource>, addr: Seq<char>)
    ensures
        !has_addr(without_addr(rs, addr), addr),
        forall|i: int| 0 <= i < rs.len() && rs[i].target_addr@ != addr ==> without_addr(rs, addr).contains(
            #[trigger] rs[i],
        ),
    decreases rs.len(),
{
    if rs.len() > 0 {
        let d = rs.drop_last();
        law_remove_resource_leaves_none(d, addr);
        let w = without_addr(rs, addr);
        let wd = without_addr(d, addr);
        if has_addr(w, addr) {
            let i = choose|i: int| 0 <= i < w.len() && #[trigger] w[i].target_addr@ == addr;
            if i < wd.len() {
                assert(wd[i] == w[i]);
            }
        }
        assert forall|i: int| 0 <= i < rs.len() && rs[i].target_addr@ != addr implies w.contains(#[trigger] rs[i]) by {
            if i < rs.len() - 1 {
                assert(d[i] == rs[i]);
                let k = choose|k: int| 0 <= k < wd.len() && wd[k] == d[i];
                assert(w[k] == wd[k]);
            } else {
                assert(w[w.len() - 1] == rs[i]);
            }
        }
    }
}

/// Whether some resource in `rs` has `target_addr == addr`.
pub open spec fn has_addr(rs: Seq<MappedResource>, addr: Seq<char>) -> bool {
    exists|i: int| 0 <= i < rs.len() && #[trigger] rs[i].target_addr@ == addr
}

/// Removing the resources at `addr` shortens the list iff one is there.
pub proof fn lemma_without_addr_len(rs: Seq<MappedResource>, addr: Seq<char>)
    ensures
        without_addr(rs, addr).len() <= rs.len(),
        (without_addr(rs, addr).len() < rs.len()) == has_addr(rs, addr),
    decreases rs.len(),
{
    if rs.len() > 0 {
        let d = rs.drop_last();
        lemma_without_addr_len(d, addr);
        if has_addr(d, addr) {
            let i = choose|i: int| 0 <= i < d.len() && #[trigger] d[i].target_addr@ == addr;
            assert(rs[i] == d[i]);
            assert(has_addr(rs, addr));
        }
        if rs.last().target_addr@ == addr {
            assert(rs[rs.len() - 1].target_addr@ == addr);
        }
        if has_addr(rs, addr) {
            let i = choose|i: int| 0 <= i < rs.len() && #[trigger] rs[i].target_addr@ == addr;
            if i < rs.len() - 1 {
                assert(d[i] == rs[i]);
                assert(has_addr(d, addr));
            }
        }
    }
}

} // verus!
