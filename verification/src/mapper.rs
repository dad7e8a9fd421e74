//! Mapper data model and the deterministic parts of mapping: the
//! `MappingPlan` the LLM is asked to produce, attribute lookups, plan
//! validation against the supported target types, response clean-up and
//! the mapping cache.
use vstd::prelude::*;
use crate::strmap::StrMap;
use vstd::utf8::{encode_utf8, is_char_boundary};
use crate::text::{concat2, concat3, chars_of, string_from_chars, str_eq, owned, seq_trim, seq_trim_start, seq_starts_with, seq_ends_with, trim_bounds, skip_ws_forward, lead_ws};

verus! {

/// HCL-emit-friendly attribute values. `Reference` is a raw HCL expression
/// (such as `aws_vpc.main.id`) that is emitted unquoted; `String` is emitted
/// as a quoted literal. A `Number` holds the bits of its IEEE-754 double
/// (`f64::to_bits`). `Object` entries (a map value, such as `tags`) are kept in key order.
#[derive(Debug)]
pub enum AttributeValue {
    String(String),
    Number(u64),
    Bool(bool),
    List(Vec<AttributeValue>),
    Object(Vec<(String, AttributeValue)>),
    Reference(String),
}

/// One source-resource to target-resource mapping.
pub struct MappedResource {
    /// e.g., "aws_vpc.main"
    pub source_addr: String,
    /// e.g., "azurerm_virtual_network.main"
    pub target_addr: String,
    /// e.g., "azurerm_virtual_network": the first HCL block label.
    pub target_type: String,
    /// e.g., "main": the second HCL block label.
    pub target_name: String,
    /// Target-shaped attributes, in key order.
    pub attributes: StrMap<AttributeValue>,
    /// Other `target_addr`s this resource depends on.
    pub dependencies: Vec<String>,
}

/// Output of the Mapper; input to the Validator and the Generator.
pub struct MappingPlan {
    /// The migration run this plan belongs to (the UUID's 128 bits).
    pub run_id: u128,
    pub source_provider: String,
    pub target_provider: String,
    pub resources: Vec<MappedResource>,
}

/// Errors from the `MappedResource` lookup helpers.
#[derive(Debug)]
pub enum MapperLookupError {
    Missing { addr: String, attr: String },
    WrongType { addr: String, attr: String, expected: String },
}

impl MapperLookupError {
    /// The human-readable message for this error.
    pub fn message(&self) -> (r: String)
        ensures
            r@ == self.spec_message(),
    {
        match self {
            MapperLookupError::Missing { addr, attr } => {
                let mut s = owned("missing required attribute '");
                s.append(attr.as_str());
                s.append("' on resource '");
                s.append(addr.as_str());
                s.append("'");
                s
            },
            MapperLookupError::WrongType { addr, attr, expected } => {
                let mut s = owned("attribute '");
                s.append(attr.as_str());
                s.append("' on resource '");
                s.append(addr.as_str());
                s.append("' has wrong type (expected ");
                s.append(expected.as_str());
                s.append(")");
                s
            },
        }
    }

    pub open spec fn spec_message(&self) -> Seq<char> {
        match self {
            MapperLookupError::Missing { addr, attr } => "missing required attribute '"@ + attr@
                + "' on resource '"@ + addr@ + "'"@,
            MapperLookupError::WrongType { addr, attr, expected } => "attribute '"@ + attr@
                + "' on resource '"@ + addr@ + "' has wrong type (expected "@ + expected@ + ")"@,
        }
    }
}

impl MappedResource {
    /// The attribute stored under `attr`, if any.
    pub open spec fn attr(&self, attr: Seq<char>) -> Option<AttributeValue> {
        self.attributes.spec_get(attr)
    }

    /// A required string attribute, or a structured error naming the
    /// resource and attribute.
    pub fn require_string(&self, attr: &str) -> (r: Result<&str, MapperLookupError>)
        ensures
            match self.attr(attr@) {
                Some(AttributeValue::String(s)) => r matches Ok(x) && x@ == s@,
                Some(_) => r matches Err(MapperLookupError::WrongType { addr, attr: a, expected })
                    && addr@ == self.target_addr@ && a@ == attr@ && expected@ == "string"@,
                None => r matches Err(MapperLookupError::Missing { addr, attr: a }) && addr@
                    == self.target_addr@ && a@ == attr@,
            },
    {
        match self.attributes.get(attr) {
            Some(AttributeValue::String(s)) => Ok(s.as_str()),
            Some(_) => Err(
                MapperLookupError::WrongType {
                    addr: self.target_addr.clone(),
                    attr: owned(attr),
                    expected: owned("string"),
                },
            ),
            None => Err(
                MapperLookupError::Missing { addr: self.target_addr.clone(), attr: owned(attr) },
            ),
        }
    }

    /// A string attribute; `None` when absent or of another type.
    pub fn optional_string(&self, attr: &str) -> (r: Option<&str>)
        ensures
            match self.attr(attr@) {
                Some(AttributeValue::String(s)) => r matches Some(x) && x@ == s@,
                _ => r is None,
            },
    {
        match self.attributes.get(attr) {
            Some(AttributeValue::String(s)) => Some(s.as_str()),
            _ => None,
        }
    }

    /// A bool attribute; `None` when absent or of another type.
    pub fn optional_bool(&self, attr: &str) -> (r: Option<bool>)
        ensures
            match self.attr(attr@) {
                Some(AttributeValue::Bool(b)) => r == Some(b),
                _ => r is None,
            },
    {
        match self.attributes.get(attr) {
            Some(AttributeValue::Bool(b)) => Some(*b),
            _ => None,
        }
    }

    /// A reference attribute (the raw HCL expression, unquoted); `None`
    /// when absent or of another type.
    pub fn optional_reference(&self, attr: &str) -> (r: Option<&str>)
        ensures
            match self.attr(attr@) {
                Some(AttributeValue::Reference(s)) => r matches Some(x) && x@ == s@,
                _ => r is None,
            },
    {
        match self.attributes.get(attr) {
            Some(AttributeValue::Reference(s)) => Some(s.as_str()),
            _ => None,
        }
    }

    /// A map attribute (such as `tags`); `None` when absent or of another type.
    pub fn optional_map(&self, attr: &str) -> (r: Option<&Vec<(String, AttributeValue)>>)
        ensures
            match self.attr(attr@) {
                Some(AttributeValue::Object(m)) => r == Some(&m),
                _ => r is None,
            },
    {
        match self.attributes.get(attr) {
            Some(AttributeValue::Object(m)) => Some(m),
            _ => None,
        }
    }
}

/// Failures of the Mapper.
#[derive(Debug)]
pub enum MapperError {
    /// The LLM response did not parse as a `MappingPlan`; `sample` is the
    /// start of the raw response, cut at a UTF-8 boundary.
    MalformedResponse { reason: String, sample: String },
    /// The inventory's canonical JSON is larger than the single-call limit.
    InventoryTooLarge { bytes: usize, limit: usize },
    /// The LLM client failed; its message.
    Llm(String),
    /// The knowledge service failed; its message.
    Knowledge(String),
    /// The inventory did not serialize; the serializer's message.
    Serialize(String),
    /// A mapped resource has an empty `target_type`.
    EmptyTargetType { source_addr: String, supported: Vec<String> },
    /// A mapped resource's `target_type` is not one the Generator supports.
    UnsupportedTargetType { source_addr: String, target_type: String, supported: Vec<String> },
}

/// The views of a sequence of strings.
pub open spec fn strs(v: Seq<String>) -> Seq<Seq<char>> {
    v.map_values(|s: String| s@)
}

/// A copy of a list of strings.
pub fn clone_strings(v: &Vec<String>) -> (r: Vec<String>)
    ensures
        strs(r@) == strs(v@),
{
    let mut out: Vec<String> = Vec::new();
    let mut i: usize = 0;
    while i < v.len()
        invariant
            i <= v@.len(),
            out@.len() == i,
            forall|k: int| 0 <= k < i ==> (#[trigger] out@[k])@ == v@[k]@,
        decreases v@.len() - i,
    {
        let c = v[i].clone();
        out.push(c);
        i = i + 1;
    }
    assert(strs(out@) =~= strs(v@));
    out
}

/// Whether `s` occurs in `list`.
pub fn contains_str(list: &Vec<String>, s: &str) -> (r: bool)
    ensures
        r == strs(list@).contains(s@),
{
    let mut i: usize = 0;
    while i < list.len()
        invariant
            i <= list@.len(),
            forall|j: int| 0 <= j < i ==> (#[trigger] list@[j])@ != s@,
        decreases list@.len() - i,
    {
        if str_eq(list[i].as_str(), s) {
            assert(strs(list@)[i as int] == s@);
            return true;
        }
        i = i + 1;
    }
    assert forall|j: int| 0 <= j < strs(list@).len() implies #[trigger] strs(list@)[j] != s@ by {
        assert(strs(list@)[j] == list@[j]@);
    }
    false
}

/// Every mapped resource has a non-empty target type that is in the
/// supported set.
pub open spec fn plan_is_valid(rs: Seq<MappedResource>, supported: Seq<Seq<char>>) -> bool {
    forall|i: int|
        0 <= i < rs.len() ==> supported.contains(#[trigger] rs[i].target_type@) && rs[i].target_type@.len() > 0
}

/// `e` is the error that plan validation reports: it names the first
/// resource, in plan order, whose target type is empty (`EmptyTargetType`)
/// or outside the supported set (`UnsupportedTargetType`), and carries the
/// supported set.
pub open spec fn validate_plan_error(plan: MappingPlan, supported: Seq<String>, e: MapperError) -> bool {
    exists|i: int|
        #![trigger plan.resources@[i]]
        0 <= i < plan.resources@.len() && plan_is_valid(plan.resources@.take(i), strs(supported)) && {
            let bad = plan.resources@[i];
            if bad.target_type@.len() == 0 {
                e matches MapperError::EmptyTargetType { source_addr, supported: s }
                    && source_addr@ == bad.source_addr@ && strs(s@) == strs(supported)
            } else {
                &&& !strs(supported).contains(bad.target_type@)
                &&& e matches MapperError::UnsupportedTargetType {
                    source_addr,
                    target_type,
                    supported: s,
                } && source_addr@ == bad.source_addr@ && target_type@ == bad.target_type@
                    && strs(s@) == strs(supported)
            }
        }
}

/// Checks every mapped resource's `target_type` against the supported set,
/// stopping at the first offending resource (in plan order): an empty type
/// gives `EmptyTargetType`, any other type outside the set gives
/// `UnsupportedTargetType`. Both name the resource's `source_addr` and carry
/// the supported set.
pub fn validate_plan(plan: &MappingPlan, supported: &Vec<String>) -> (r: Result<(), MapperError>)
    ensures
        r is Ok <==> plan_is_valid(plan.resources@, strs(supported@)),
        r matches Err(e) ==> validate_plan_error(*plan, supported@, e),
{
    let mut i: usize = 0;
    while i < plan.resources.len()
        invariant
            i <= plan.resources@.len(),
            forall|j: int|
                0 <= j < i ==> strs(supported@).contains(#[trigger] plan.resources@[j].target_type@)
                    && plan.resources@[j].target_type@.len() > 0,
        decreases plan.resources@.len() - i,
    {
        let r = &plan.resources[i];
        assert(r == plan.resources@[i as int]);
        assert(plan_is_valid(plan.resources@.take(i as int), strs(supported@)));
        if r.target_type.as_str().is_empty() {
            return Err(
                MapperError::EmptyTargetType {
                    source_addr: r.source_addr.clone(),
                    supported: clone_strings(supported),
                },
            );
        }
        if !contains_str(supported, r.target_type.as_str()) {
            return Err(
                MapperError::UnsupportedTargetType {
                    source_addr: r.source_addr.clone(),
                    target_type: r.target_type.clone(),
                    supported: clone_strings(supported),
                },
            );
        }
        i = i + 1;
    }
    Ok(())
}

/// The response with surrounding Markdown code fences (a leading "```json"
/// or "```", a trailing "```") and surrounding whitespace removed.
pub open spec fn spec_strip_fences(s: Seq<char>) -> Seq<char> {
    let t = seq_trim(s);
    let u = if seq_starts_with(t, "```json"@) {
        t.subrange(7, t.len() as int)
    } else if seq_starts_with(t, "```"@) {
        t.subrange(3, t.len() as int)
    } else {
        t
    };
    let v = seq_trim_start(u);
    let w = if seq_ends_with(v, "```"@) {
        v.subrange(0, v.len() - 3)
    } else {
        v
    };
    seq_trim(w)
}

/// Whether `cs[from..to]` starts with `p`.
fn chars_start_with(cs: &Vec<char>, from: usize, to: usize, p: &str) -> (r: bool)
    requires
        from <= to <= cs@.len(),
    ensures
        r == seq_starts_with(cs@.subrange(from as int, to as int), p@),
{
    let cp = chars_of(p);
    if cp.len() > to - from {
        return false;
    }
    let mut i: usize = 0;
    while i < cp.len()
        invariant
            cp@ == p@,
            from <= to <= cs@.len(),
            cp@.len() <= to - from,
            i <= cp@.len(),
            forall|j: int| 0 <= j < i ==> cs@[from + j] == cp@[j],
        decreases cp@.len() - i,
    {
        if cs[from + i] != cp[i] {
            assert(cs@.subrange(from as int, to as int).subrange(0, p@.len() as int)[i as int] != p@[i as int]);
            return false;
        }
        i = i + 1;
    }
    assert(cs@.subrange(from as int, to as int).subrange(0, p@.len() as int) =~= p@);
    true
}

/// Whether `cs[from..to]` ends with `p`.
fn chars_end_with(cs: &Vec<char>, from: usize, to: usize, p: &str) -> (r: bool)
    requires
        from <= to <= cs@.len(),
    ensures
        r == seq_ends_with(cs@.subrange(from as int, to as int), p@),
{
    let cp = chars_of(p);
    if cp.len() > to - from {
        return false;
    }
    let off = to - cp.len();
    let mut i: usize = 0;
    while i < cp.len()
        invariant
            cp@ == p@,
            from <= off,
            off + cp@.len() == to,
            to <= cs@.len(),
            i <= cp@.len(),
            forall|j: int| 0 <= j < i ==> cs@[off + j] == cp@[j],
        decreases cp@.len() - i,
    {
        if cs[off + i] != cp[i] {
            let ghost w = cs@.subrange(from as int, to as int);
            assert(w.subrange(w.len() - p@.len(), w.len() as int)[i as int] != p@[i as int]);
            return false;
        }
        i = i + 1;
    }
    let w = Ghost(cs@.subrange(from as int, to as int));
    assert(w@.subrange(w@.len() - p@.len(), w@.len() as int) =~= p@);
    true
}

/// Strips leading and trailing Markdown code fences (```` ``` ```` or
/// ```` ```json ````) and surrounding whitespace from an LLM response.
pub fn strip_markdown_fences(s: &str) -> (r: String)
    ensures
        r@ == spec_strip_fences(s@),
{
    let cs = chars_of(s);
    assert(cs@.subrange(0, cs@.len() as int) =~= s@);
    let (a, b) = trim_bounds(&cs, 0, cs.len());
    let ghost t = cs@.subrange(a as int, b as int);
    proof {
        reveal_strlit("```json");
        reveal_strlit("```");
    }
    let mut a2 = a;
    if chars_start_with(&cs, a, b, "```json") {
        a2 = a + 7;
    } else if chars_start_with(&cs, a, b, "```") {
        a2 = a + 3;
    }
    proof {
        reveal_strlit("```json");
        reveal_strlit("```");
    }
    assert(cs@.subrange(a2 as int, b as int) =~= (if seq_starts_with(t, "```json"@) {
        t.subrange(7, t.len() as int)
    } else if seq_starts_with(t, "```"@) {
        t.subrange(3, t.len() as int)
    } else {
        t
    }));
    let a3 = skip_ws_forward(&cs, a2, b);
    let ghost v = cs@.subrange(a3 as int, b as int);
    assert(v =~= seq_trim_start(cs@.subrange(a2 as int, b as int)));
    let mut b2 = b;
    if chars_end_with(&cs, a3, b, "```") {
        b2 = b - 3;
    }
    assert(cs@.subrange(a3 as int, b2 as int) =~= (if seq_ends_with(v, "```"@) {
        v.subrange(0, v.len() - 3)
    } else {
        v
    }));
    let (c, d) = trim_bounds(&cs, a3, b2);
    string_from_chars(&cs, c, d)
}


/// The largest character boundary of `b` at or below `k`.
pub open spec fn boundary_at_or_below(b: Seq<u8>, k: int) -> int
    decreases k,
{
    if k <= 0 {
        0
    } else if is_char_boundary(b, k) {
        k
    } else {
        boundary_at_or_below(b, k - 1)
    }
}

/// Byte length kept by `truncate_utf8`: all of `b` when it fits, otherwise
/// the largest character boundary at or below `max`.
pub open spec fn truncate_len(b: Seq<u8>, max: int) -> int {
    if b.len() <= max {
        b.len() as int
    } else {
        boundary_at_or_below(b, max)
    }
}

proof fn lemma_boundary_at_or_below(b: Seq<u8>, k: int)
    requires
        0 <= k <= b.len(),
        vstd::utf8::valid_utf8(b),
    ensures
        0 <= boundary_at_or_below(b, k) <= k,
        is_char_boundary(b, boundary_at_or_below(b, k)),
    decreases k,
{
    if k > 0 && !is_char_boundary(b, k) {
        lemma_boundary_at_or_below(b, k - 1);
    }
}

/// `s` cut to at most `max_bytes` bytes of UTF-8, at a character boundary.
pub fn truncate_utf8(s: &str, max_bytes: usize) -> (r: String)
    ensures
        encode_utf8(r@) == encode_utf8(s@).subrange(0, truncate_len(encode_utf8(s@), max_bytes as int)),
{
    proof {
        vstd::utf8::encode_utf8_valid_utf8(s@);
    }
    let bytes = s.as_bytes();
    if bytes.len() <= max_bytes {
        assert(encode_utf8(s@).subrange(0, encode_utf8(s@).len() as int) =~= encode_utf8(s@));
        return owned(s);
    }
    let mut end = max_bytes;
    while end > 0 && !s.is_char_boundary(end)
        invariant
            end <= max_bytes,
            end < encode_utf8(s@).len(),
            vstd::utf8::valid_utf8(encode_utf8(s@)),
            boundary_at_or_below(encode_utf8(s@), end as int) == boundary_at_or_below(
                encode_utf8(s@),
                max_bytes as int,
            ),
        decreases end,
    {
        end = end - 1;
    }
    proof {
        lemma_boundary_at_or_below(encode_utf8(s@), end as int);
    }
    let (head, _tail) = s.split_at(end);
    let r = owned(head);
    proof {
        vstd::utf8::encode_utf8_decode_utf8(r@);
    }
    r
}

/// The SHA-256 digest of `data`.
pub uninterp spec fn sha256(data: Seq<u8>) -> Seq<u8>;

/// Trusted: calls `sha2::Sha256::digest`, which computes the SHA-256 hash
/// of the input; the contract names the result `sha256(data)` and says it
/// is 32 bytes long, as SHA-256 output always is.
#[verifier::external_body]
fn sha256_digest(data: &[u8]) -> (r: Vec<u8>)
    ensures
        r@ == sha256(data@),
        r@.len() == 32,
{
    <sha2::Sha256 as sha2::Digest>::digest(data).to_vec()
}

/// The lower-case hexadecimal digit for `d` (0..16).
pub open spec fn hex_digit(d: u8) -> char {
    if d < 10 {
        ((48 + d) as u8) as char
    } else {
        ((87 + d) as u8) as char
    }
}

/// Lower-case hexadecimal encoding: two digits per byte, high nibble first.
pub open spec fn hex_lower(b: Seq<u8>) -> Seq<char>
    decreases b.len(),
{
    if b.len() == 0 {
        Seq::empty()
    } else {
        hex_lower(b.drop_last()) + seq![hex_digit(b.last() / 16), hex_digit(b.last() % 16)]
    }
}

pub(crate) fn hex_char(d: u8) -> (r: char)
    requires
        d < 16,
    ensures
        r == hex_digit(d),
{
    if d < 10 {
        ((48 + d) as u8) as char
    } else {
        ((87 + d) as u8) as char
    }
}

/// `bytes` as lower-case hexadecimal text.
pub fn to_hex_lower(bytes: &Vec<u8>) -> (r: String)
    ensures
        r@ == hex_lower(bytes@),
{
    let mut out = String::new();
    let mut i: usize = 0;
    while i < bytes.len()
        invariant
            i <= bytes@.len(),
            out@ == hex_lower(bytes@.subrange(0, i as int)),
        decreases bytes@.len() - i,
    {
        let b = bytes[i];
        crate::text::push_char(&mut out, hex_char(b / 16));
        crate::text::push_char(&mut out, hex_char(b % 16));
        assert(bytes@.subrange(0, i + 1).drop_last() =~= bytes@.subrange(0, i as int));
        i = i + 1;
    }
    assert(bytes@.subrange(0, i as int) =~= bytes@);
    out
}

/// The last `n` hexadecimal digits of `v`, most significant first.
pub open spec fn hex_digits(v: nat, n: nat) -> Seq<char>
    decreases n,
{
    if n == 0 {
        Seq::empty()
    } else {
        hex_digits(v / 16, (n - 1) as nat).push(hex_digit((v % 16) as u8))
    }
}

/// A UUID's hyphenated lower-case text (8-4-4-4-12 hex digits), as the
/// `uuid` crate displays it.
pub open spec fn uuid_text(v: u128) -> Seq<char> {
    let d = hex_digits(v as nat, 32);
    d.subrange(0, 8) + "-"@ + d.subrange(8, 12) + "-"@ + d.subrange(12, 16) + "-"@ + d.subrange(16, 20) + "-"@
        + d.subrange(20, 32)
}

proof fn lemma_hex_digits_len(v: nat, n: nat)
    ensures
        hex_digits(v, n).len() == n,
    decreases n,
{
    if n > 0 {
        lemma_hex_digits_len(v / 16, (n - 1) as nat);
    }
}

fn hex_digits_of(v: u128, n: usize) -> (r: Vec<char>)
    ensures
        r@ == hex_digits(v as nat, n as nat),
    decreases n,
{
    if n == 0 {
        Vec::new()
    } else {
        let mut r = hex_digits_of(v / 16, n - 1);
        r.push(hex_char((v % 16) as u8));
        r
    }
}

/// The hyphenated text of the UUID whose 128 bits are `v`.
pub fn uuid_string(v: u128) -> (r: String)
    ensures
        r@ == uuid_text(v),
{
    let d = hex_digits_of(v, 32);
    proof {
        lemma_hex_digits_len(v as nat, 32);
    }
    let mut s = crate::text::string_from_chars(&d, 0, 8);
    s.append("-");
    s.append(crate::text::string_from_chars(&d, 8, 12).as_str());
    s.append("-");
    s.append(crate::text::string_from_chars(&d, 12, 16).as_str());
    s.append("-");
    s.append(crate::text::string_from_chars(&d, 16, 20).as_str());
    s.append("-");
    s.append(crate::text::string_from_chars(&d, 20, 32).as_str());
    s
}

/// The canonical cache key of an inventory, given the inventory's
/// canonical JSON bytes: the lower-case hex SHA-256 of those bytes.
pub fn estate_cache_key(estate_json: &[u8]) -> (r: String)
    ensures
        r@ == hex_lower(sha256(estate_json@)),
        r@.len() == 64,
{
    let digest = sha256_digest(estate_json);
    let r = to_hex_lower(&digest);
    proof {
        lemma_hex_len(digest@);
    }
    r
}

proof fn lemma_hex_len(b: Seq<u8>)
    ensures
        hex_lower(b).len() == 2 * b.len(),
    decreases b.len(),
{
    if b.len() > 0 {
        lemma_hex_len(b.drop_last());
    }
}

/// Stage 1 inventory size cap, in bytes of canonical JSON.
pub const MAX_INVENTORY_BYTES: usize = 100_000;

/// Top-K knowledge hits per source resource type.
pub const KNOWLEDGE_TOP_K: usize = 5;

/// Rejects inventories whose canonical JSON exceeds `MAX_INVENTORY_BYTES`.
pub fn check_inventory_size(bytes: usize) -> (r: Result<(), MapperError>)
    ensures
        bytes <= MAX_INVENTORY_BYTES ==> r is Ok,
        bytes > MAX_INVENTORY_BYTES ==> (r matches Err(MapperError::InventoryTooLarge { bytes: b, limit })
            && b == bytes && limit == MAX_INVENTORY_BYTES),
{
    if bytes > MAX_INVENTORY_BYTES {
        Err(MapperError::InventoryTooLarge { bytes, limit: MAX_INVENTORY_BYTES })
    } else {
        Ok(())
    }
}

/// The error for an LLM response that did not parse: the parser's reason
/// and the first 500 bytes of the response, cut at a character boundary.
pub fn malformed_response(reason: String, response: &str) -> (r: MapperError)
    ensures
        r matches MapperError::MalformedResponse { reason: why, sample } && why == reason
            && encode_utf8(sample@) == encode_utf8(response@).subrange(
            0,
            truncate_len(encode_utf8(response@), 500),
        ),
{
    MapperError::MalformedResponse { reason, sample: truncate_utf8(response, 500) }
}

/// Every resource type of the inventory.
pub open spec fn has_source_type(files: Seq<crate::scanner::ScannedFile>, t: Seq<char>) -> bool {
    exists|i: int, j: int| 0 <= i < files.len() && 0 <= j < files[i].resources@.len()
        && #[trigger] files[i].resources@[j].resource_type@ == t
}

/// Whether any file of the inventory has a resource.
pub open spec fn has_resources(files: Seq<crate::scanner::ScannedFile>) -> bool {
    exists|i: int| 0 <= i < files.len() && (#[trigger] files[i]).resources@.len() > 0
}

/// The distinct source resource types of the inventory, sorted.
pub fn unique_source_types(estate: &crate::scanner::EstateInventory) -> (r: Vec<String>)
    ensures
        forall|k: int, l: int| 0 <= k < l < r@.len() ==> crate::text::seq_lt(#[trigger] r@[k]@, #[trigger] r@[l]@),
        forall|t: Seq<char>| #[trigger] strs(r@).contains(t) == has_source_type(estate.files@, t),
{
    let mut seen: StrMap<bool> = StrMap::new();
    let ghost fs = estate.files@;
    let mut i: usize = 0;
    while i < estate.files.len()
        invariant
            fs == estate.files@,
            i <= fs.len(),
            forall|t: Seq<char>| #[trigger] seen.spec_has(t) == exists|a: int, b: int| 0 <= a < i && 0 <= b < fs[a].resources@.len()
                && #[trigger] fs[a].resources@[b].resource_type@ == t,
        decreases fs.len() - i,
    {
        let rs = &estate.files[i].resources;
        let mut j: usize = 0;
        while j < rs.len()
            invariant
                fs == estate.files@,
                i < fs.len(),
                *rs == fs[i as int].resources,
                j <= rs@.len(),
                forall|t: Seq<char>| #[trigger] seen.spec_has(t) == ((exists|a: int, b: int| 0 <= a < i && 0 <= b < fs[a].resources@.len()
                    && #[trigger] fs[a].resources@[b].resource_type@ == t) || exists|b: int| 0 <= b < j && #[trigger] rs@[b].resource_type@ == t),
            decreases rs@.len() - j,
        {
            let ghost s0 = seen;
            seen.insert(rs[j].resource_type.clone(), true);
            proof {
                assert forall|t: Seq<char>| #[trigger] seen.spec_has(t) == ((exists|a: int, b: int| 0 <= a < i && 0 <= b < fs[a].resources@.len()
                    && #[trigger] fs[a].resources@[b].resource_type@ == t) || exists|b: int| 0 <= b < j + 1 && #[trigger] rs@[b].resource_type@ == t) by {
                    crate::strmap::lemma_has_get(seen, t);
                    crate::strmap::lemma_has_get(s0, t);
                    if t == rs@[j as int].resource_type@ {
                        assert(rs@[j as int].resource_type@ == t);
                    }
                }
            }
            j = j + 1;
        }
        proof {
            assert forall|t: Seq<char>| #[trigger] seen.spec_has(t) == exists|a: int, b: int| 0 <= a < i + 1 && 0 <= b < fs[a].resources@.len()
                && #[trigger] fs[a].resources@[b].resource_type@ == t by {
                if exists|b: int| 0 <= b < rs@.len() && #[trigger] rs@[b].resource_type@ == t {
                    let b = choose|b: int| 0 <= b < rs@.len() && #[trigger] rs@[b].resource_type@ == t;
                    assert(fs[i as int].resources@[b].resource_type@ == t);
                }
                if exists|a: int, b: int| 0 <= a < i + 1 && 0 <= b < fs[a].resources@.len()
                    && #[trigger] fs[a].resources@[b].resource_type@ == t {
                    let (a, b) = choose|a: int, b: int| 0 <= a < i + 1 && 0 <= b < fs[a].resources@.len()
                        && #[trigger] fs[a].resources@[b].resource_type@ == t;
                    if a == i {
                        assert(rs@[b].resource_type@ == t);
                    }
                }
            }
        }
        i = i + 1;
    }
    let n = seen.len();
    let mut out: Vec<String> = Vec::new();
    let mut k: usize = 0;
    while k < n
        invariant
            n == seen@.len(),
            crate::strmap::sorted_keys(seen@),
            k <= n,
            out@.len() == k,
            forall|q: int| 0 <= q < k ==> (#[trigger] out@[q])@ == seen@[q].0,
        decreases n - k,
    {
        out.push(seen.key_at(k).clone());
        k = k + 1;
    }
    proof {
        assert forall|a: int, b: int| 0 <= a < b < out@.len() implies crate::text::seq_lt(#[trigger] out@[a]@, #[trigger] out@[b]@) by {
            assert(crate::text::seq_lt(seen@[a].0, seen@[b].0));
        }
        assert forall|t: Seq<char>| #[trigger] strs(out@).contains(t) == has_source_type(estate.files@, t) by {
            if strs(out@).contains(t) {
                let q = choose|q: int| 0 <= q < strs(out@).len() && strs(out@)[q] == t;
                assert(seen@[q].0 == t);
                assert(seen.spec_has(t));
            }
            if has_source_type(estate.files@, t) {
                assert(seen.spec_has(t));
                let q = choose|q: int| 0 <= q < seen@.len() && #[trigger] seen@[q].0 == t;
                assert(strs(out@)[q] == t);
            }
        }
    }
    out
}

/// The Mapper's settings: which provider to which.
pub struct Mapper {
    pub source_provider: String,
    pub target_provider: String,
}

/// The first decision of a mapping run, given whether the cache holds a
/// plan for the inventory: a cached plan wins; an inventory without
/// resources maps to the empty plan; an inventory whose JSON is over the
/// size limit is refused; otherwise one knowledge query per distinct source
/// type, in type order.
pub open spec fn map_start_outcome(
    m: Mapper,
    estate: crate::scanner::EstateInventory,
    hit: bool,
    inventory_bytes: usize,
    r: Result<MapStart, MapperError>,
) -> bool {
    &&& hit ==> (r matches Ok(MapStart::UseCached))
    &&& !hit && !has_resources(estate.files@) ==> (r matches Ok(MapStart::EmptyPlan))
    &&& !hit && has_resources(estate.files@) && inventory_bytes > MAX_INVENTORY_BYTES ==> (r matches Err(
        MapperError::InventoryTooLarge { bytes, limit },
    ) && bytes == inventory_bytes && limit == MAX_INVENTORY_BYTES)
    &&& !hit && has_resources(estate.files@) && inventory_bytes <= MAX_INVENTORY_BYTES ==> (r matches Ok(
        MapStart::Query { source_types, queries },
    ) && (forall|k: int, l: int| 0 <= k < l < source_types@.len() ==> crate::text::seq_lt(
        #[trigger] source_types@[k]@,
        #[trigger] source_types@[l]@,
    )) && (forall|t: Seq<char>| #[trigger] strs(source_types@).contains(t) == has_source_type(estate.files@, t))
        && queries@.len() == source_types@.len() && forall|k: int| 0 <= k < queries@.len() ==> (#[trigger] queries@[k])@
        == source_types@[k]@ + " "@ + m.target_provider@ + " equivalent"@)
}

/// What a mapping run does first.
pub enum MapStart {
    /// The cache holds the plan for this inventory.
    UseCached,
    /// The inventory has no resource: the plan is empty, no LLM call.
    EmptyPlan,
    /// Ask the knowledge service these queries, one per distinct source
    /// type (sorted), then the LLM.
    Query { source_types: Vec<String>, queries: Vec<String> },
}

impl Mapper {
    /// A Mapper from `source_provider` to `target_provider`.
    pub fn new(source_provider: &str, target_provider: &str) -> (r: Self)
        ensures
            r.source_provider@ == source_provider@,
            r.target_provider@ == target_provider@,
    {
        Mapper { source_provider: owned(source_provider), target_provider: owned(target_provider) }
    }

    /// The knowledge query for a source type: `<type> <target> equivalent`.
    pub fn knowledge_query(&self, source_type: &str) -> (r: String)
        ensures
            r@ == source_type@ + " "@ + self.target_provider@ + " equivalent"@,
    {
        let mut q = owned(source_type);
        q.append(" ");
        q.append(self.target_provider.as_str());
        q.append(" equivalent");
        q
    }

    /// The plan of an inventory without resources.
    pub fn empty_plan(&self, run_id: u128) -> (r: MappingPlan)
        ensures
            r.run_id == run_id,
            r.source_provider@ == self.source_provider@,
            r.target_provider@ == self.target_provider@,
            r.resources@.len() == 0,
    {
        MappingPlan {
            run_id,
            source_provider: self.source_provider.clone(),
            target_provider: self.target_provider.clone(),
            resources: Vec::new(),
        }
    }

    /// The first decision of a mapping run: a plan cached under `key`
    /// wins; an inventory without resources maps to the empty plan; an
    /// inventory whose JSON is over the size limit is refused; otherwise
    /// the knowledge queries to make.
    pub fn begin_map(&self, estate: &crate::scanner::EstateInventory, cache: &MapperCache, key: &str, inventory_bytes: usize) -> (r: Result<MapStart, MapperError>)
        ensures
            map_start_outcome(*self, *estate, cache.spec_get(key@) is Some, inventory_bytes, r),
    {
        let cached = cache.get(key).is_some();
        if cached {
            return Ok(MapStart::UseCached);
        }
        let mut any = false;
        let mut i: usize = 0;
        while i < estate.files.len()
            invariant
                i <= estate.files@.len(),
                any == exists|a: int| 0 <= a < i && (#[trigger] estate.files@[a]).resources@.len() > 0,
            decreases estate.files@.len() - i,
        {
            if estate.files[i].resources.len() > 0 {
                any = true;
            }
            i = i + 1;
        }
        if !any {
            return Ok(MapStart::EmptyPlan);
        }
        match check_inventory_size(inventory_bytes) {
            Ok(()) => {},
            Err(e) => return Err(e),
        }
        let source_types = unique_source_types(estate);
        let mut queries: Vec<String> = Vec::new();
        let mut k: usize = 0;
        while k < source_types.len()
            invariant
                k <= source_types@.len(),
                queries@.len() == k,
                forall|q: int| 0 <= q < k ==> (#[trigger] queries@[q])@ == source_types@[q]@ + " "@ + self.target_provider@
                    + " equivalent"@,
            decreases source_types@.len() - k,
        {
            queries.push(self.knowledge_query(source_types[k].as_str()));
            k = k + 1;
        }
        Ok(MapStart::Query { source_types, queries })
    }

    /// The last step of a mapping run, given the LLM's response and what
    /// its fence-stripped text parsed to: a parse failure is a malformed
    /// response (with the start of the raw response); a parsed plan must
    /// pass `validate_plan`.
    pub fn finish_map(&self, response: &str, parsed: Result<MappingPlan, String>, supported: &Vec<String>) -> (r: Result<MappingPlan, MapperError>)
        ensures
            match parsed {
                Err(reason) => r matches Err(MapperError::MalformedResponse { reason: why, sample }) && why == reason
                    && encode_utf8(sample@) == encode_utf8(response@).subrange(
                    0,
                    truncate_len(encode_utf8(response@), 500),
                ),
                Ok(plan) => match r {
                    Ok(p) => p == plan && plan_is_valid(plan.resources@, strs(supported@)),
                    Err(e) => validate_plan_error(plan, supported@, e),
                },
            },
    {
        match parsed {
            Err(reason) => Err(malformed_response(reason, response)),
            Ok(plan) => match validate_plan(&plan, supported) {
                Ok(()) => Ok(plan),
                Err(e) => Err(e),
            },
        }
    }
}

/// The supported target types of `target_provider`: the hand-curated
/// template types named `<target_provider>_...`, in registration order.
pub fn supported_types_for(target_provider: &str, target_schema: Option<&crate::validator::ProviderSchema>) -> (r: Vec<String>)
    ensures
        strs(r@) == crate::generator::curated_types().filter(|t: Seq<char>| seq_starts_with(t, target_provider@ + "_"@)),
{
    let reg = crate::generator::TemplateRegistry::stage1();
    let all = reg.registered_types();
    let prefix = concat2(target_provider, "_");
    let ghost ct = crate::generator::curated_types();
    proof {
        assert(strs(all@) =~= ct);
    }
    let mut out: Vec<String> = Vec::new();
    let mut i: usize = 0;
    proof {
        assert(ct.take(0).filter(|t: Seq<char>| seq_starts_with(t, prefix@)) =~= Seq::<Seq<char>>::empty()) by {
            reveal(Seq::filter);
        }
    }
    while i < all.len()
        invariant
            strs(all@) == ct,
            prefix@ == target_provider@ + "_"@,
            i <= all@.len(),
            strs(out@) == ct.take(i as int).filter(|t: Seq<char>| seq_starts_with(t, prefix@)),
        decreases all@.len() - i,
    {
        let ghost before = out@;
        proof {
            assert(ct.take(i + 1).drop_last() =~= ct.take(i as int));
            assert(ct.take(i + 1).last() == all@[i as int]@);
            reveal(Seq::filter);
        }
        if crate::text::starts_with(all[i].as_str(), prefix.as_str()) {
            let x = all[i].clone();
            let ghost xv = x@;
            out.push(x);
            proof {
                assert(strs(out@) =~= strs(before).push(xv));
            }
        }
        i = i + 1;
    }
    proof {
        assert(ct.take(ct.len() as int) =~= ct);
    }
    out
}

/// In-process cache of mapping plans, keyed by `estate_cache_key`.
pub struct MapperCache {
    entries: StrMap<MappingPlan>,
}

impl MapperCache {
    /// The plan cached under `key`, if any.
    pub closed spec fn spec_get(&self, key: Seq<char>) -> Option<MappingPlan> {
        self.entries.spec_get(key)
    }

    /// Number of cached plans.
    pub closed spec fn spec_len(&self) -> nat {
        self.entries@.len()
    }

    /// An empty cache.
    pub fn new() -> (r: Self)
        ensures
            r.spec_len() == 0,
            forall|k: Seq<char>| #[trigger] r.spec_get(k) is None,
    {
        MapperCache { entries: StrMap::new() }
    }

    /// Cache lookup; `None` on a miss.
    pub fn get(&self, key: &str) -> (r: Option<&MappingPlan>)
        ensures
            match r {
                Some(p) => self.spec_get(key@) == Some(*p),
                None => self.spec_get(key@) is None,
            },
    {
        self.entries.get(key)
    }

    /// Caches `plan` under `key`; returns the plan it replaces, if any.
    pub fn insert(&mut self, key: String, plan: MappingPlan) -> (r: Option<MappingPlan>)
        ensures
            r == old(self).spec_get(key@),
            forall|q: Seq<char>| #[trigger] final(self).spec_get(q) == if q == key@ {
                Some(plan)
            } else {
                old(self).spec_get(q)
            },
            final(self).spec_len() == old(self).spec_len() + if old(self).spec_get(key@) is Some {
                0int
            } else {
                1
            },
    {
        proof {
            if self.entries.spec_has(key@) {
                let i = choose|i: int| 0 <= i < self.entries@.len() && #[trigger] self.entries@[i].0 == key@;
                assert(self.entries.spec_get(key@) is Some);
            }
        }
        self.entries.insert(key, plan)
    }

    /// Number of cached plans.
    pub fn len(&self) -> (r: usize)
        ensures
            r == self.spec_len(),
    {
        self.entries.len()
    }

    /// Whether the cache holds no plan.
    pub fn is_empty(&self) -> (r: bool)
        ensures
            r == (self.spec_len() == 0),
    {
        self.entries.is_empty()
    }
}

/// A cache hit returns what was inserted, and inserting under one key leaves
/// every other key's entry as it was.
pub proof fn law_cache_get_after_insert(before: MapperCache, after: MapperCache, key: Seq<char>, plan: MappingPlan, other: Seq<char>)
    requires
        forall|q: Seq<char>| #[trigger] after.spec_get(q) == if q == key {
            Some(plan)
        } else {
            before.spec_get(q)
        },
    ensures
        after.spec_get(key) == Some(plan),
        other != key ==> after.spec_get(other) == before.spec_get(other),
{
    assert(after.spec_get(key) == Some(plan));
    assert(after.spec_get(other) == if other == key { Some(plan) } else { before.spec_get(other) });
}

/// Two mapping runs over the same inventory with the same cache: the first
/// misses the cache and, for an inventory with resources within the size
/// limit, goes to the knowledge service and the LLM (one query per source
/// type); once it has cached its plan, the second is answered from the
/// cache, with no knowledge query, prompt, reducer or LLM step, and the
/// plan it gets is the first run's plan, run id included.
pub proof fn law_second_map_is_served_from_cache(
    m: Mapper,
    estate: crate::scanner::EstateInventory,
    before: MapperCache,
    after: MapperCache,
    key: Seq<char>,
    plan: MappingPlan,
    inventory_bytes: usize,
    first: Result<MapStart, MapperError>,
    second: Result<MapStart, MapperError>,
)
    requires
        before.spec_get(key) is None,
        map_start_outcome(m, estate, before.spec_get(key) is Some, inventory_bytes, first),
        forall|q: Seq<char>| #[trigger] after.spec_get(q) == if q == key {
            Some(plan)
        } else {
            before.spec_get(q)
        },
        map_start_outcome(m, estate, after.spec_get(key) is Some, inventory_bytes, second),
    ensures
        has_resources(estate.files@) && inventory_bytes <= MAX_INVENTORY_BYTES ==> (first matches Ok(
            MapStart::Query { .. },
        )),
        !has_resources(estate.files@) ==> (first matches Ok(MapStart::EmptyPlan)),
        second matches Ok(MapStart::UseCached),
        after.spec_get(key) == Some(plan),
{
    law_cache_get_after_insert(before, after, key, plan, key);
}

} // verus!
