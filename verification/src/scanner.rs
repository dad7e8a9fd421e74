//! Scanner: the typed estate inventory and the per-file extraction of
//! Terraform entities from parsed HCL.
use vstd::prelude::*;
use crate::strmap::StrMap;
use vstd::utf8::encode_utf8;
use crate::text::{owned, str_eq, trim, seq_trim, chars_of, string_from_chars, decimal, append_decimal};

verus! {

/// Approximate position of a block in its source file: the start of the
/// first occurrence of the block's keyword. `line` and `col` are 1-based;
/// both are 0 when the keyword was not found.
pub struct SourceSpan {
    pub file: String,
    pub line: usize,
    pub col: usize,
}

/// `provider "aws" { region = "us-east-1" ... }`
pub struct Provider {
    pub provider_type: String,
    pub alias: Option<String>,
    pub attributes: StrMap<String>,
    pub source_span: SourceSpan,
}

/// `module "vpc" { source = "../../modules/vpc" ... }`
pub struct Module {
    pub name: String,
    pub source: Option<String>,
    pub version: Option<String>,
    pub attributes: StrMap<String>,
    pub source_span: SourceSpan,
}

/// `resource "aws_vpc" "default" { cidr_block = ... }`
pub struct Resource {
    pub resource_type: String,
    pub name: String,
    pub attributes: StrMap<String>,
    pub source_span: SourceSpan,
}

/// `data "aws_caller_identity" "current" { }`
pub struct DataSource {
    pub data_type: String,
    pub name: String,
    pub attributes: StrMap<String>,
    pub source_span: SourceSpan,
}

/// `variable "vpc_cidr" { type = string; default = "10.0.0.0/16" }`
pub struct Variable {
    pub name: String,
    pub var_type: Option<String>,
    pub default: Option<String>,
    pub description: Option<String>,
    pub sensitive: bool,
    pub source_span: SourceSpan,
}

/// `output "vpc_id" { value = aws_vpc.default.id }`
pub struct Output {
    pub name: String,
    pub value_expr: Option<String>,
    pub description: Option<String>,
    pub sensitive: bool,
    pub source_span: SourceSpan,
}

/// Entities extracted from a single `.tf` file.
pub struct ScannedFile {
    pub path: String,
    pub providers: Vec<Provider>,
    pub modules: Vec<Module>,
    pub resources: Vec<Resource>,
    pub variables: Vec<Variable>,
    pub outputs: Vec<Output>,
    pub data_sources: Vec<DataSource>,
    /// Non-fatal observations (`count`, `for_each`, provisioners, unknown
    /// block kinds) for the Mapper and Validator to consider.
    pub scan_notes: Vec<String>,
}

impl ScannedFile {
    /// An empty scan result for `path`.
    pub fn new(path: String) -> (r: Self)
        ensures
            r.path == path,
            r.providers@.len() == 0,
            r.modules@.len() == 0,
            r.resources@.len() == 0,
            r.variables@.len() == 0,
            r.outputs@.len() == 0,
            r.data_sources@.len() == 0,
            r.scan_notes@.len() == 0,
    {
        ScannedFile {
            path,
            providers: Vec::new(),
            modules: Vec::new(),
            resources: Vec::new(),
            variables: Vec::new(),
            outputs: Vec::new(),
            data_sources: Vec::new(),
            scan_notes: Vec::new(),
        }
    }
}

/// Top-level scanner output.
pub struct EstateInventory {
    pub root_dir: String,
    pub files: Vec<ScannedFile>,
}

/// Number of resources across the files `fs`.
pub open spec fn total_resources(fs: Seq<ScannedFile>) -> nat
    decreases fs.len(),
{
    if fs.len() == 0 {
        0
    } else {
        total_resources(fs.drop_last()) + fs.last().resources@.len()
    }
}

proof fn lemma_total_same_counts(a: Seq<ScannedFile>, b: Seq<ScannedFile>)
    requires
        a.len() == b.len(),
        forall|i: int| 0 <= i < a.len() ==> (#[trigger] a[i]).resources@.len() == b[i].resources@.len(),
    ensures
        total_resources(a) == total_resources(b),
    decreases a.len(),
{
    if a.len() > 0 {
        let (pa, pb) = (a.drop_last(), b.drop_last());
        assert forall|i: int| 0 <= i < pa.len() implies (#[trigger] pa[i]).resources@.len() == pb[i].resources@.len() by {
            assert(pa[i] == a[i] && pb[i] == b[i]);
        }
        lemma_total_same_counts(pa, pb);
        assert(a[a.len() - 1] == a.last() && b[b.len() - 1] == b.last());
    }
}

/// The resource count counts resource blocks only: two inventories whose
/// files hold as many resources each, file by file, have the same count,
/// whatever else (data sources, providers, modules, ...) the files hold;
/// an inventory of one file counts that file's resources; an empty one
/// counts none.
pub proof fn law_resource_count_counts_resources(a: EstateInventory, b: EstateInventory, ra: usize, rb: usize)
    requires
        total_resources(a.files@) <= usize::MAX,
        total_resources(b.files@) <= usize::MAX,
        ra == total_resources(a.files@),
        rb == total_resources(b.files@),
    ensures
        a.files@.len() == b.files@.len() && (forall|i: int|
            0 <= i < a.files@.len() ==> (#[trigger] a.files@[i]).resources@.len() == b.files@[i].resources@.len())
            ==> ra == rb,
        a.files@.len() == 1 ==> ra == a.files@[0].resources@.len(),
        a.files@.len() == 0 ==> ra == 0,
{
    if a.files@.len() == b.files@.len() && (forall|i: int|
        0 <= i < a.files@.len() ==> (#[trigger] a.files@[i]).resources@.len() == b.files@[i].resources@.len()) {
        lemma_total_same_counts(a.files@, b.files@);
    }
    if a.files@.len() == 1 {
        assert(total_resources(a.files@.drop_last()) == 0);
        assert(a.files@.last() == a.files@[0]);
        assert(total_resources(a.files@) == total_resources(a.files@.drop_last()) + a.files@.last().resources@.len());
    }
}

impl EstateInventory {
    /// Total number of resources across all files.
    pub fn resource_count(&self) -> (r: usize)
        requires
            total_resources(self.files@) <= usize::MAX,
        ensures
            r == total_resources(self.files@),
    {
        let mut total: usize = 0;
        let mut i: usize = 0;
        while i < self.files.len()
            invariant
                i <= self.files@.len(),
                total == total_resources(self.files@.subrange(0, i as int)),
                total_resources(self.files@) <= usize::MAX,
            decreases self.files@.len() - i,
        {
            assert(self.files@.subrange(0, i + 1).drop_last() =~= self.files@.subrange(0, i as int));
            proof {
                lemma_total_resources_prefix(self.files@, i + 1);
            }
            total = total + self.files[i].resources.len();
            i = i + 1;
        }
        assert(self.files@.subrange(0, i as int) =~= self.files@);
        total
    }
}

/// Totals over prefixes never exceed the total.
pub proof fn lemma_total_resources_prefix(fs: Seq<ScannedFile>, n: int)
    requires
        0 <= n <= fs.len(),
    ensures
        total_resources(fs.subrange(0, n)) <= total_resources(fs),
    decreases fs.len(),
{
    if n < fs.len() {
        assert(fs.drop_last().subrange(0, n) =~= fs.subrange(0, n));
        lemma_total_resources_prefix(fs.drop_last(), n);
    } else {
        assert(fs.subrange(0, n) =~= fs);
    }
}

/// A parsed HCL body: its attributes and blocks, in source order.
#[derive(Debug)]
pub struct HclBody {
    pub structures: Vec<HclStructure>,
}

/// One structure of an HCL body.
#[derive(Debug)]
pub enum HclStructure {
    /// `key = expr`; `expr` is the expression's HCL text.
    Attribute { key: String, expr: String },
    Block(HclBlock),
}

/// `identifier label... { body }`
#[derive(Debug)]
pub struct HclBlock {
    pub identifier: String,
    pub labels: Vec<String>,
    pub body: HclBody,
}

#[verifier::external_type_specification]
#[verifier::external_body]
pub struct ExHclBody(hcl::Body);

/// The syntax tree hcl-rs parses from `content` (`hcl::from_str` into an
/// `hcl::Body`), node for node in this library's types, each expression as
/// hcl-rs formats it, each label as its text; or the parser's error text.
pub uninterp spec fn hcl_parse(content: Seq<char>) -> Result<HclBody, Seq<char>>;

/// Parses `content` as an HCL body.
///
/// Trusted: calls `hcl::from_str::<hcl::Body>`; the contract only names
/// its result (`hcl_parse`), converted to this library's tree by
/// `convert_hcl_body`, and its error's display text.
#[verifier::external_body]
fn parse_hcl(content: &str) -> (r: Result<HclBody, String>)
    ensures
        match r {
            Ok(b) => hcl_parse(content@) == Ok::<HclBody, Seq<char>>(b),
            Err(m) => hcl_parse(content@) == Err::<HclBody, Seq<char>>(m@),
        },
{
    match hcl::from_str::<hcl::Body>(content) {
        Ok(b) => Ok(convert_hcl_body(b)),
        Err(e) => Err(e.to_string()),
    }
}

/// hcl-rs's syntax tree in this library's node types, one node for one:
/// identifiers and labels by their text, expressions by hcl-rs's
/// formatting of them (`Display`). Part of `parse_hcl`.
#[verifier::external_body]
fn convert_hcl_body(b: hcl::Body) -> HclBody {
    HclBody {
        structures: b.0.into_iter().map(|s| match s {
            hcl::Structure::Attribute(a) => HclStructure::Attribute { key: a.key.as_str().to_string(), expr: a.expr.to_string() },
            hcl::Structure::Block(k) => HclStructure::Block(HclBlock {
                identifier: k.identifier.as_str().to_string(),
                labels: k.labels.iter().map(|l| l.as_str().to_string()).collect(),
                body: convert_hcl_body(k.body),
            }),
        }).collect(),
    }
}

/// The views of a list of strings.
pub open spec fn str_views(v: Seq<String>) -> Seq<Seq<char>> {
    v.map_values(|s: String| s@)
}

/// `{:?}` of a list of strings, as std formats a `Vec<String>`.
pub uninterp spec fn debug_string_list(items: Seq<Seq<char>>) -> Seq<char>;

/// The `Debug` text of a list of strings.
///
/// Trusted: std's `Debug` for `Vec<String>` (`format!("{:?}", ..)`); the
/// contract names its result.
#[verifier::external_body]
pub(crate) fn debug_labels(labels: &Vec<String>) -> (r: String)
    ensures
        r@ == debug_string_list(str_views(labels@)),
{
    format!("{:?}", labels)
}

/// Scanner failures, each with enough context to find the problem.
#[derive(Debug)]
pub enum ScannerError {
    /// Walking the directory or reading a file failed (the error's text).
    Io { path: String, message: String },
    /// The file did not parse as HCL.
    Parse { path: String, message: String },
    /// A Terraform feature this stage does not support.
    UnsupportedFeature { feature: String, path: String, line: usize, reason: String },
    /// A block with the wrong labels.
    MalformedBlock { path: String, message: String },
}

/// The text of a scanner failure.
pub open spec fn scanner_error_text(e: ScanErrorView) -> Seq<char> {
    match e {
        ScanErrorView::Io { path, message } => "io error at "@ + path + ": "@ + message,
        ScanErrorView::Parse { path, message } => "hcl parse error in "@ + path + ": "@ + message,
        ScanErrorView::UnsupportedFeature { feature, path, line, reason } => "unsupported feature '"@ + feature
            + "' in "@ + path + " (line "@ + decimal(line as nat) + "): "@ + reason
            + "\nStage 1 supports a focused subset; this feature ships in Stage 5. To proceed, refactor the source to avoid this feature, or wait for Stage 5."@,
        ScanErrorView::MalformedBlock { path, message } => "malformed block in "@ + path + ": "@ + message,
    }
}

impl ScannerError {
    /// The text of this failure.
    pub fn message(&self) -> (r: String)
        ensures
            r@ == scanner_error_text(self@),
    {
        match self {
            ScannerError::Io { path, message } => {
                let mut s = owned("io error at ");
                s.append(path.as_str());
                s.append(": ");
                s.append(message.as_str());
                s
            },
            ScannerError::Parse { path, message } => {
                let mut s = owned("hcl parse error in ");
                s.append(path.as_str());
                s.append(": ");
                s.append(message.as_str());
                s
            },
            ScannerError::UnsupportedFeature { feature, path, line, reason } => {
                let mut s = owned("unsupported feature '");
                s.append(feature.as_str());
                s.append("' in ");
                s.append(path.as_str());
                s.append(" (line ");
                append_decimal(&mut s, *line as u64);
                s.append("): ");
                s.append(reason.as_str());
                s.append(
                    "\nStage 1 supports a focused subset; this feature ships in Stage 5. To proceed, refactor the source to avoid this feature, or wait for Stage 5.",
                );
                s
            },
            ScannerError::MalformedBlock { path, message } => {
                let mut s = owned("malformed block in ");
                s.append(path.as_str());
                s.append(": ");
                s.append(message.as_str());
                s
            },
        }
    }
}

/// `s` without surrounding double quotes, when its trimmed form is quoted;
/// otherwise `s` unchanged.
pub open spec fn spec_unquote(s: Seq<char>) -> Seq<char> {
    let t = seq_trim(s);
    if t.len() >= 2 && t[0] == '"' && t[t.len() - 1] == '"' {
        t.subrange(1, t.len() - 1)
    } else {
        s
    }
}

/// Strips one pair of surrounding double quotes (after trimming).
pub fn unquote(s: String) -> (r: String)
    ensures
        r@ == spec_unquote(s@),
{
    let t = trim(s.as_str());
    let cs = chars_of(t.as_str());
    let n = cs.len();
    if n >= 2 && cs[0] == '"' && cs[n - 1] == '"' {
        string_from_chars(&cs, 1, n - 1)
    } else {
        s
    }
}

/// The first position of `needle` in `h`.
pub open spec fn find_first(h: Seq<u8>, needle: Seq<u8>) -> Option<int> {
    if exists|i: int| 0 <= i && i + needle.len() <= h.len() && #[trigger] h.subrange(i, i + needle.len()) == needle {
        Some(choose|i: int| 0 <= i && i + needle.len() <= h.len() && #[trigger] h.subrange(i, i + needle.len()) == needle
            && forall|j: int| 0 <= j < i ==> #[trigger] h.subrange(j, j + needle.len()) != needle)
    } else {
        None
    }
}

/// How many newline bytes `b` holds.
pub open spec fn newlines(b: Seq<u8>) -> nat
    decreases b.len(),
{
    if b.len() == 0 {
        0
    } else {
        newlines(b.drop_last()) + if b.last() == 10u8 { 1nat } else { 0 }
    }
}

/// The position of the last newline byte in `b`.
pub open spec fn last_newline(b: Seq<u8>) -> Option<int>
    decreases b.len(),
{
    if b.len() == 0 {
        None
    } else if b.last() == 10u8 {
        Some(b.len() - 1)
    } else {
        last_newline(b.drop_last())
    }
}

/// Where a block of `kind` starts: the first `kind "` in the text, else
/// the first `kind {`.
pub open spec fn block_offset(content: Seq<u8>, kind: Seq<u8>) -> Option<int> {
    match find_first(content, kind + seq![32u8, 34u8]) {
        Some(i) => Some(i),
        None => find_first(content, kind + seq![32u8, 123u8]),
    }
}

/// The 1-based line of byte `off` in `content`.
pub open spec fn line_of(content: Seq<u8>, off: int) -> int {
    newlines(content.take(off)) as int + 1
}

/// The column of byte `off`: bytes since the last newline before it, or
/// `off + 1` on the first line.
pub open spec fn col_of(content: Seq<u8>, off: int) -> int {
    match last_newline(content.take(off)) {
        Some(p) => off - p,
        None => off + 1,
    }
}

/// The line of the first `kind` block in `content`, 0 when there is none.
pub open spec fn block_line(content: Seq<char>, kind: Seq<char>) -> int {
    match block_offset(encode_utf8(content), encode_utf8(kind)) {
        Some(off) => line_of(encode_utf8(content), off),
        None => 0,
    }
}

/// Whether `span` is the approximate span of a `kind` block in `content`.
pub open spec fn is_block_span(span: SourceSpan, path: Seq<char>, content: Seq<char>, kind: Seq<char>) -> bool {
    &&& span.file@ == path
    &&& span.line == block_line(content, kind)
    &&& match block_offset(encode_utf8(content), encode_utf8(kind)) {
        Some(off) => span.col == col_of(encode_utf8(content), off),
        None => span.col == 0,
    }
}

fn find_bytes(h: &[u8], needle: &Vec<u8>) -> (r: Option<usize>)
    ensures
        match r {
            Some(i) => find_first(h@, needle@) == Some(i as int) && i + needle@.len() <= h@.len(),
            None => find_first(h@, needle@) is None,
        },
{
    let n = h.len();
    let m = needle.len();
    if m > n {
        return None;
    }
    let mut i: usize = 0;
    while i <= n - m
        invariant
            n == h@.len(),
            m == needle@.len(),
            m <= n,
            i <= n - m + 1,
            forall|j: int| 0 <= j < i ==> #[trigger] h@.subrange(j, j + m) != needle@,
        decreases n - i,
    {
        let mut k: usize = 0;
        while k < m && h[i + k] == needle[k]
            invariant
                n == h@.len(),
                m == needle@.len(),
                i + m <= n,
                k <= m,
                forall|q: int| 0 <= q < k ==> h@[i + q] == needle@[q],
            decreases m - k,
        {
            k = k + 1;
        }
        if k == m {
            proof {
                assert(h@.subrange(i as int, i + m) =~= needle@);
                let c = choose|c: int| 0 <= c && c + m <= h@.len() && #[trigger] h@.subrange(c, c + m) == needle@
                    && forall|j: int| 0 <= j < c ==> #[trigger] h@.subrange(j, j + m) != needle@;
                assert(0 <= c && c + m <= h@.len() && h@.subrange(c, c + m) == needle@);
                if c < i {
                } else if c > i {
                    assert(h@.subrange(i as int, i + m) != needle@);
                }
            }
            return Some(i);
        }
        proof {
            assert(h@.subrange(i as int, i + m)[k as int] == h@[i + k]);
        }
        i = i + 1;
    }
    proof {
        if find_first(h@, needle@) is Some {
            let c = choose|c: int| 0 <= c && c + m <= h@.len() && #[trigger] h@.subrange(c, c + m) == needle@;
            assert(h@.subrange(c, c + m) != needle@);
        }
    }
    None
}

fn block_needle(kb: &[u8], trailer: u8) -> (r: Vec<u8>)
    ensures
        r@ == kb@ + seq![32u8, trailer],
{
    let mut out: Vec<u8> = Vec::new();
    let mut i: usize = 0;
    while i < kb.len()
        invariant
            i <= kb@.len(),
            out@ == kb@.take(i as int),
        decreases kb@.len() - i,
    {
        out.push(kb[i]);
        proof {
            assert(kb@.take(i + 1) =~= kb@.take(i as int).push(kb@[i as int]));
        }
        i = i + 1;
    }
    out.push(32u8);
    out.push(trailer);
    proof {
        assert(kb@.take(kb@.len() as int) =~= kb@);
        assert(out@ =~= kb@ + seq![32u8, trailer]);
    }
    out
}

fn line_col(h: &[u8], off: usize) -> (r: (usize, usize))
    requires
        off < h@.len(),
    ensures
        r.0 == line_of(h@, off as int),
        r.1 == col_of(h@, off as int),
{
    let n = h.len();
    let mut lines: usize = 0;
    let mut last: Option<usize> = None;
    let mut j: usize = 0;
    while j < off
        invariant
            n == h@.len(),
            off < h@.len(),
            j <= off,
            lines == newlines(h@.take(j as int)),
            lines <= j,
            opt_usize(last) == last_newline(h@.take(j as int)),
            match last { Some(p) => p < j, None => true },
        decreases off - j,
    {
        proof {
            assert(h@.take(j + 1).drop_last() =~= h@.take(j as int));
            assert(h@.take(j + 1).last() == h@[j as int]);
        }
        if h[j] == 10u8 {
            lines = lines + 1;
            last = Some(j);
        }
        j = j + 1;
    }
    let col = match last {
        Some(p) => off - p,
        None => off + 1,
    };
    (lines + 1, col)
}

/// The approximate span of the first block of `kind` in `content`: the
/// line and column of the first `kind "`, else of the first `kind {`;
/// line and column 0 when neither occurs.
pub fn approx_span(content: &str, kind: &str, path: &str) -> (r: SourceSpan)
    ensures
        is_block_span(r, path@, content@, kind@),
{
    let h = content.as_bytes();
    let kb = kind.as_bytes();
    let quoted = block_needle(kb, 34u8);
    let braced = block_needle(kb, 123u8);
    let pos = match find_bytes(h, &quoted) {
        Some(p) => Some(p),
        None => find_bytes(h, &braced),
    };
    match pos {
        Some(off) => {
            let (line, col) = line_col(h, off);
            SourceSpan { file: owned(path), line, col }
        },
        None => SourceSpan { file: owned(path), line: 0, col: 0 },
    }
}

/// An optional index as an integer option.
pub open spec fn opt_usize(o: Option<usize>) -> Option<int> {
    match o {
        Some(i) => Some(i as int),
        None => None,
    }
}

/// Whether some block nested anywhere in `b` is a `dynamic` block.
pub open spec fn body_has_dynamic(b: HclBody) -> bool
    decreases b, 1int,
{
    structures_have_dynamic(b.structures@, 0)
}

/// Whether some block among `ss[from..]`, or nested in one, is `dynamic`.
pub open spec fn structures_have_dynamic(ss: Seq<HclStructure>, from: int) -> bool
    decreases ss, 0int, ss.len() - from,
{
    if from < 0 || from >= ss.len() {
        false
    } else {
        (match ss[from] {
            HclStructure::Block(k) => k.identifier@ == "dynamic"@ || body_has_dynamic(k.body),
            HclStructure::Attribute { .. } => false,
        }) || structures_have_dynamic(ss, from + 1)
    }
}

/// Whether some block nested in `body` is `dynamic`.
pub fn has_nested_dynamic(body: &HclBody) -> (r: bool)
    ensures
        r == body_has_dynamic(*body),
    decreases body,
{
    let ghost ss = body.structures@;
    let mut i: usize = 0;
    while i < body.structures.len()
        invariant
            ss == body.structures@,
            i <= ss.len(),
            structures_have_dynamic(ss, 0) == structures_have_dynamic(ss, i as int),
        decreases ss.len() - i,
    {
        match &body.structures[i] {
            HclStructure::Block(k) => {
                proof {
                    reveal_strlit("dynamic");
                    assert(decreases_to!(*body => ss[i as int]));
                }
                if str_eq(k.identifier.as_str(), "dynamic") {
                    return true;
                }
                if has_nested_dynamic(&k.body) {
                    return true;
                }
            },
            HclStructure::Attribute { .. } => {},
        }
        i = i + 1;
    }
    false
}

/// The expression text of the last attribute named `k` among `ss`.
pub open spec fn body_attr(ss: Seq<HclStructure>, k: Seq<char>) -> Option<Seq<char>>
    decreases ss.len(),
{
    if ss.len() == 0 {
        None
    } else {
        match ss.last() {
            HclStructure::Attribute { key, expr } => if key@ == k {
                Some(expr@)
            } else {
                body_attr(ss.drop_last(), k)
            },
            HclStructure::Block(_) => body_attr(ss.drop_last(), k),
        }
    }
}

/// An optional string by its view.
pub open spec fn opt_str(o: Option<String>) -> Option<Seq<char>> {
    match o {
        Some(s) => Some(s@),
        None => None,
    }
}

/// The body's attributes by key (the last one wins), each as its
/// expression's text.
pub fn body_attrs_to_map(body: &HclBody) -> (r: StrMap<String>)
    ensures
        forall|k: Seq<char>| #[trigger] opt_str(r.spec_get(k)) == body_attr(body.structures@, k),
{
    let ghost ss = body.structures@;
    let mut m: StrMap<String> = StrMap::new();
    let mut i: usize = 0;
    while i < body.structures.len()
        invariant
            ss == body.structures@,
            i <= ss.len(),
            forall|k: Seq<char>| #[trigger] opt_str(m.spec_get(k)) == body_attr(ss.take(i as int), k),
        decreases ss.len() - i,
    {
        match &body.structures[i] {
            HclStructure::Attribute { key, expr } => {
                m.insert(key.clone(), expr.clone());
            },
            HclStructure::Block(_) => {},
        }
        proof {
            assert forall|k: Seq<char>| #[trigger] opt_str(m.spec_get(k)) == body_attr(ss.take(i + 1), k) by {
                assert(ss.take(i + 1).drop_last() =~= ss.take(i as int));
                assert(ss.take(i + 1).last() == ss[i as int]);
            }
        }
        i = i + 1;
    }
    proof {
        assert(ss.take(ss.len() as int) =~= ss);
    }
    m
}

/// Whether the map `m` holds exactly the attributes of `body`.
pub open spec fn attrs_of(m: StrMap<String>, body: HclBody) -> bool {
    forall|k: Seq<char>| #[trigger] opt_str(m.spec_get(k)) == body_attr(body.structures@, k)
}

/// An optional text with its quotes stripped.
pub open spec fn opt_unquote(o: Option<Seq<char>>) -> Option<Seq<char>> {
    match o {
        Some(s) => Some(spec_unquote(s)),
        None => None,
    }
}

/// Whether the body sets `sensitive = true`.
pub open spec fn is_sensitive(body: HclBody) -> bool {
    body_attr(body.structures@, "sensitive"@) == Some("true"@)
}

/// `r` is the resource the block `b` declares.
pub open spec fn resource_of(r: Resource, b: HclBlock, path: Seq<char>, content: Seq<char>) -> bool {
    &&& b.labels@.len() == 2
    &&& r.resource_type@ == b.labels@[0]@
    &&& r.name@ == b.labels@[1]@
    &&& attrs_of(r.attributes, b.body)
    &&& is_block_span(r.source_span, path, content, "resource"@)
}

/// `d` is the data source the block `b` declares.
pub open spec fn data_source_of(d: DataSource, b: HclBlock, path: Seq<char>, content: Seq<char>) -> bool {
    &&& b.labels@.len() == 2
    &&& d.data_type@ == b.labels@[0]@
    &&& d.name@ == b.labels@[1]@
    &&& attrs_of(d.attributes, b.body)
    &&& is_block_span(d.source_span, path, content, "data"@)
}

/// `p` is the provider the block `b` declares.
pub open spec fn provider_of(p: Provider, b: HclBlock, path: Seq<char>, content: Seq<char>) -> bool {
    &&& b.labels@.len() >= 1
    &&& p.provider_type@ == b.labels@[0]@
    &&& opt_str(p.alias) == body_attr(b.body.structures@, "alias"@)
    &&& attrs_of(p.attributes, b.body)
    &&& is_block_span(p.source_span, path, content, "provider"@)
}

/// `m` is the module call the block `b` declares.
pub open spec fn module_of(m: Module, b: HclBlock, path: Seq<char>, content: Seq<char>) -> bool {
    &&& b.labels@.len() == 1
    &&& m.name@ == b.labels@[0]@
    &&& opt_str(m.source) == opt_unquote(body_attr(b.body.structures@, "source"@))
    &&& opt_str(m.version) == opt_unquote(body_attr(b.body.structures@, "version"@))
    &&& attrs_of(m.attributes, b.body)
    &&& is_block_span(m.source_span, path, content, "module"@)
}

/// `v` is the variable the block `b` declares.
pub open spec fn variable_of(v: Variable, b: HclBlock, path: Seq<char>, content: Seq<char>) -> bool {
    &&& b.labels@.len() == 1
    &&& v.name@ == b.labels@[0]@
    &&& opt_str(v.var_type) == body_attr(b.body.structures@, "type"@)
    &&& opt_str(v.default) == body_attr(b.body.structures@, "default"@)
    &&& opt_str(v.description) == opt_unquote(body_attr(b.body.structures@, "description"@))
    &&& v.sensitive == is_sensitive(b.body)
    &&& is_block_span(v.source_span, path, content, "variable"@)
}

/// `o` is the output the block `b` declares.
pub open spec fn output_of(o: Output, b: HclBlock, path: Seq<char>, content: Seq<char>) -> bool {
    &&& b.labels@.len() == 1
    &&& o.name@ == b.labels@[0]@
    &&& opt_str(o.value_expr) == body_attr(b.body.structures@, "value"@)
    &&& opt_str(o.description) == opt_unquote(body_attr(b.body.structures@, "description"@))
    &&& o.sensitive == is_sensitive(b.body)
    &&& is_block_span(o.source_span, path, content, "output"@)
}

/// A `ScannerError` with its strings taken by value.
pub enum ScanErrorView {
    Io { path: Seq<char>, message: Seq<char> },
    Parse { path: Seq<char>, message: Seq<char> },
    UnsupportedFeature { feature: Seq<char>, path: Seq<char>, line: int, reason: Seq<char> },
    MalformedBlock { path: Seq<char>, message: Seq<char> },
}

impl View for ScannerError {
    type V = ScanErrorView;

    open spec fn view(&self) -> ScanErrorView {
        match self {
            ScannerError::Io { path, message } => ScanErrorView::Io { path: path@, message: message@ },
            ScannerError::Parse { path, message } => ScanErrorView::Parse { path: path@, message: message@ },
            ScannerError::UnsupportedFeature { feature, path, line, reason } => ScanErrorView::UnsupportedFeature {
                feature: feature@,
                path: path@,
                line: *line as int,
                reason: reason@,
            },
            ScannerError::MalformedBlock { path, message } => ScanErrorView::MalformedBlock {
                path: path@,
                message: message@,
            },
        }
    }
}

fn malformed(path: &str, message: String) -> (r: ScannerError)
    ensures
        r@ == (ScanErrorView::MalformedBlock { path: path@, message: message@ }),
{
    ScannerError::MalformedBlock { path: owned(path), message }
}

fn label_count_message(prefix: &str, n: usize) -> (r: String)
    ensures
        r@ == prefix@ + decimal(n as nat),
{
    let mut m = owned(prefix);
    append_decimal(&mut m, n as u64);
    m
}

fn get_attr(m: &StrMap<String>, k: &str) -> (r: Option<String>)
    ensures
        opt_str(r) == opt_str(m.spec_get(k@)),
{
    match m.get(k) {
        Some(v) => Some(v.clone()),
        None => None,
    }
}

fn unquote_opt(o: Option<String>) -> (r: Option<String>)
    ensures
        opt_str(r) == opt_unquote(opt_str(o)),
{
    match o {
        Some(s) => Some(unquote(s)),
        None => None,
    }
}

fn is_true(o: &Option<String>) -> (r: bool)
    ensures
        r == (opt_str(*o) == Some("true"@)),
{
    match o {
        Some(s) => str_eq(s.as_str(), "true"),
        None => false,
    }
}

/// The resource a `resource` block declares; it needs two labels.
pub fn parse_resource(labels: &Vec<String>, body: &HclBody, span: SourceSpan, path: &str) -> (r: Result<Resource, ScannerError>)
    ensures
        labels@.len() != 2 ==> (r matches Err(e) && e@ == ScanErrorView::MalformedBlock {
            path: path@,
            message: "resource block needs 2 labels (type + name); got "@ + decimal(labels@.len()) + ": "@
                + debug_string_list(str_views(labels@)),
        }),
        labels@.len() == 2 ==> (r matches Ok(x) && x.resource_type@ == labels@[0]@ && x.name@ == labels@[1]@
            && attrs_of(x.attributes, *body) && x.source_span == span),
{
    if labels.len() != 2 {
        let mut m = label_count_message("resource block needs 2 labels (type + name); got ", labels.len());
        m.append(": ");
        m.append(debug_labels(labels).as_str());
        return Err(malformed(path, m));
    }
    Ok(Resource {
        resource_type: labels[0].clone(),
        name: labels[1].clone(),
        attributes: body_attrs_to_map(body),
        source_span: span,
    })
}

/// The data source a `data` block declares; it needs two labels.
pub fn parse_data_source(labels: &Vec<String>, body: &HclBody, span: SourceSpan, path: &str) -> (r: Result<DataSource, ScannerError>)
    ensures
        labels@.len() != 2 ==> (r matches Err(e) && e@ == ScanErrorView::MalformedBlock {
            path: path@,
            message: "data block needs 2 labels; got "@ + decimal(labels@.len()),
        }),
        labels@.len() == 2 ==> (r matches Ok(x) && x.data_type@ == labels@[0]@ && x.name@ == labels@[1]@
            && attrs_of(x.attributes, *body) && x.source_span == span),
{
    if labels.len() != 2 {
        return Err(malformed(path, label_count_message("data block needs 2 labels; got ", labels.len())));
    }
    Ok(DataSource {
        data_type: labels[0].clone(),
        name: labels[1].clone(),
        attributes: body_attrs_to_map(body),
        source_span: span,
    })
}

/// The provider a `provider` block configures; it needs a type label.
pub fn parse_provider(labels: &Vec<String>, body: &HclBody, span: SourceSpan, path: &str) -> (r: Result<Provider, ScannerError>)
    ensures
        labels@.len() == 0 ==> (r matches Err(e) && e@ == ScanErrorView::MalformedBlock {
            path: path@,
            message: "provider block needs a type label"@,
        }),
        labels@.len() > 0 ==> (r matches Ok(x) && x.provider_type@ == labels@[0]@ && opt_str(x.alias) == body_attr(
            body.structures@,
            "alias"@,
        ) && attrs_of(x.attributes, *body) && x.source_span == span),
{
    if labels.len() == 0 {
        return Err(malformed(path, owned("provider block needs a type label")));
    }
    let attrs = body_attrs_to_map(body);
    let alias = get_attr(&attrs, "alias");
    Ok(Provider { provider_type: labels[0].clone(), alias, attributes: attrs, source_span: span })
}

/// The module call a `module` block declares; it needs one label.
pub fn parse_module(labels: &Vec<String>, body: &HclBody, span: SourceSpan, path: &str) -> (r: Result<Module, ScannerError>)
    ensures
        labels@.len() != 1 ==> (r matches Err(e) && e@ == ScanErrorView::MalformedBlock {
            path: path@,
            message: "module block needs 1 label (name); got "@ + decimal(labels@.len()),
        }),
        labels@.len() == 1 ==> (r matches Ok(x) && x.name@ == labels@[0]@ && opt_str(x.source) == opt_unquote(
            body_attr(body.structures@, "source"@),
        ) && opt_str(x.version) == opt_unquote(body_attr(body.structures@, "version"@)) && attrs_of(
            x.attributes,
            *body,
        ) && x.source_span == span),
{
    if labels.len() != 1 {
        return Err(malformed(path, label_count_message("module block needs 1 label (name); got ", labels.len())));
    }
    let attrs = body_attrs_to_map(body);
    let source = unquote_opt(get_attr(&attrs, "source"));
    let version = unquote_opt(get_attr(&attrs, "version"));
    Ok(Module { name: labels[0].clone(), source, version, attributes: attrs, source_span: span })
}

/// The variable a `variable` block declares; it needs one label.
pub fn parse_variable(labels: &Vec<String>, body: &HclBody, span: SourceSpan, path: &str) -> (r: Result<Variable, ScannerError>)
    ensures
        labels@.len() != 1 ==> (r matches Err(e) && e@ == ScanErrorView::MalformedBlock {
            path: path@,
            message: "variable block needs 1 label; got "@ + decimal(labels@.len()),
        }),
        labels@.len() == 1 ==> (r matches Ok(x) && x.name@ == labels@[0]@ && opt_str(x.var_type) == body_attr(
            body.structures@,
            "type"@,
        ) && opt_str(x.default) == body_attr(body.structures@, "default"@) && opt_str(x.description)
            == opt_unquote(body_attr(body.structures@, "description"@)) && x.sensitive == is_sensitive(*body)
            && x.source_span == span),
{
    if labels.len() != 1 {
        return Err(malformed(path, label_count_message("variable block needs 1 label; got ", labels.len())));
    }
    let attrs = body_attrs_to_map(body);
    let var_type = get_attr(&attrs, "type");
    let default = get_attr(&attrs, "default");
    let description = unquote_opt(get_attr(&attrs, "description"));
    let sensitive = is_true(&get_attr(&attrs, "sensitive"));
    Ok(Variable { name: labels[0].clone(), var_type, default, description, sensitive, source_span: span })
}

/// The output an `output` block declares; it needs one label.
pub fn parse_output(labels: &Vec<String>, body: &HclBody, span: SourceSpan, path: &str) -> (r: Result<Output, ScannerError>)
    ensures
        labels@.len() != 1 ==> (r matches Err(e) && e@ == ScanErrorView::MalformedBlock {
            path: path@,
            message: "output block needs 1 label; got "@ + decimal(labels@.len()),
        }),
        labels@.len() == 1 ==> (r matches Ok(x) && x.name@ == labels@[0]@ && opt_str(x.value_expr) == body_attr(
            body.structures@,
            "value"@,
        ) && opt_str(x.description) == opt_unquote(body_attr(body.structures@, "description"@))
            && x.sensitive == is_sensitive(*body) && x.source_span == span),
{
    if labels.len() != 1 {
        return Err(malformed(path, label_count_message("output block needs 1 label; got ", labels.len())));
    }
    let attrs = body_attrs_to_map(body);
    let value_expr = get_attr(&attrs, "value");
    let description = unquote_opt(get_attr(&attrs, "description"));
    let sensitive = is_true(&get_attr(&attrs, "sensitive"));
    Ok(Output { name: labels[0].clone(), value_expr, description, sensitive, source_span: span })
}

/// Whether `k` is one of the block kinds the scanner extracts.
pub open spec fn is_entity_kind(k: Seq<char>) -> bool {
    k == "resource"@ || k == "data"@ || k == "provider"@ || k == "module"@ || k == "variable"@ || k == "output"@
}

/// The note a top-level block of kind `k` gives by its kind alone.
pub open spec fn kind_note(k: Seq<char>) -> Seq<Seq<char>> {
    if k == "terraform"@ || k == "locals"@ {
        seq![k + " block (deferred to P-05)"@]
    } else if is_entity_kind(k) {
        Seq::empty()
    } else {
        seq!["unknown block kind: "@ + k]
    }
}

/// Notes for the `count` and `for_each` meta-arguments among `ss`.
pub open spec fn meta_arg_notes(ss: Seq<HclStructure>) -> Seq<Seq<char>>
    decreases ss.len(),
{
    if ss.len() == 0 {
        Seq::empty()
    } else {
        let prev = meta_arg_notes(ss.drop_last());
        match ss.last() {
            HclStructure::Attribute { key, expr } => if key@ == "count"@ || key@ == "for_each"@ {
                prev.push("uses "@ + key@ + " meta-argument (Stage 5 feature)"@)
            } else {
                prev
            },
            HclStructure::Block(_) => prev,
        }
    }
}

/// Notes for the `provisioner`, `lifecycle` and `connection` blocks
/// among `ss`.
pub open spec fn stage5_block_notes(ss: Seq<HclStructure>) -> Seq<Seq<char>>
    decreases ss.len(),
{
    if ss.len() == 0 {
        Seq::empty()
    } else {
        let prev = stage5_block_notes(ss.drop_last());
        match ss.last() {
            HclStructure::Block(b) => if b.identifier@ == "provisioner"@ || b.identifier@ == "lifecycle"@
                || b.identifier@ == "connection"@ {
                prev.push("uses "@ + b.identifier@ + " block (Stage 5 feature)"@)
            } else {
                prev
            },
            HclStructure::Attribute { .. } => prev,
        }
    }
}

/// The notes a block body gives: its meta-arguments, then its later-stage
/// blocks.
pub open spec fn stage5_notes(body: HclBody) -> Seq<Seq<char>> {
    meta_arg_notes(body.structures@) + stage5_block_notes(body.structures@)
}

/// The notes one top-level structure gives.
pub open spec fn structure_notes(st: HclStructure) -> Seq<Seq<char>> {
    match st {
        HclStructure::Attribute { .. } => seq!["top-level attribute outside block"@],
        HclStructure::Block(b) => kind_note(b.identifier@) + stage5_notes(b.body),
    }
}

/// The notes of a file's top-level structures, in order.
pub open spec fn file_notes(ss: Seq<HclStructure>) -> Seq<Seq<char>>
    decreases ss.len(),
{
    if ss.len() == 0 {
        Seq::empty()
    } else {
        file_notes(ss.drop_last()) + structure_notes(ss.last())
    }
}

/// The failure a top-level block gives, if any: a `dynamic` block, a
/// block with the wrong labels for its kind, or a `dynamic` block nested
/// in it.
pub open spec fn block_error(b: HclBlock, path: Seq<char>, content: Seq<char>) -> Option<ScanErrorView> {
    let k = b.identifier@;
    let n = b.labels@.len();
    if k == "dynamic"@ {
        Some(ScanErrorView::UnsupportedFeature {
            feature: "dynamic"@,
            path,
            line: block_line(content, "dynamic"@),
            reason: "dynamic blocks require runtime expansion; deferred to Stage 5"@,
        })
    } else if k == "resource"@ && n != 2 {
        Some(ScanErrorView::MalformedBlock {
            path,
            message: "resource block needs 2 labels (type + name); got "@ + decimal(n) + ": "@ + debug_string_list(
                str_views(b.labels@),
            ),
        })
    } else if k == "data"@ && n != 2 {
        Some(ScanErrorView::MalformedBlock { path, message: "data block needs 2 labels; got "@ + decimal(n) })
    } else if k == "provider"@ && n == 0 {
        Some(ScanErrorView::MalformedBlock { path, message: "provider block needs a type label"@ })
    } else if k == "module"@ && n != 1 {
        Some(ScanErrorView::MalformedBlock { path, message: "module block needs 1 label (name); got "@ + decimal(n) })
    } else if k == "variable"@ && n != 1 {
        Some(ScanErrorView::MalformedBlock { path, message: "variable block needs 1 label; got "@ + decimal(n) })
    } else if k == "output"@ && n != 1 {
        Some(ScanErrorView::MalformedBlock { path, message: "output block needs 1 label; got "@ + decimal(n) })
    } else if body_has_dynamic(b.body) {
        Some(nested_dynamic_error(path, content))
    } else {
        None
    }
}

/// The failure for a `dynamic` block nested in another block.
pub open spec fn nested_dynamic_error(path: Seq<char>, content: Seq<char>) -> ScanErrorView {
    ScanErrorView::UnsupportedFeature {
        feature: "dynamic (nested)"@,
        path,
        line: block_line(content, "dynamic"@),
        reason: "nested dynamic blocks require runtime expansion; deferred to Stage 5"@,
    }
}

/// The first failure among a file's top-level structures.
pub open spec fn first_error(ss: Seq<HclStructure>, path: Seq<char>, content: Seq<char>) -> Option<ScanErrorView>
    decreases ss.len(),
{
    if ss.len() == 0 {
        None
    } else {
        match first_error(ss.drop_last(), path, content) {
            Some(e) => Some(e),
            None => match ss.last() {
                HclStructure::Block(b) => block_error(b, path, content),
                HclStructure::Attribute { .. } => None,
            },
        }
    }
}

/// The top-level blocks of kind `k`, in order.
pub open spec fn kind_blocks(ss: Seq<HclStructure>, k: Seq<char>) -> Seq<HclBlock>
    decreases ss.len(),
{
    if ss.len() == 0 {
        Seq::empty()
    } else {
        let prev = kind_blocks(ss.drop_last(), k);
        match ss.last() {
            HclStructure::Block(b) => if b.identifier@ == k {
                prev.push(b)
            } else {
                prev
            },
            HclStructure::Attribute { .. } => prev,
        }
    }
}

/// Whether the entities `xs` are, one for one in order, those the blocks
/// `bs` declare by `f`.
pub open spec fn list_from<T>(xs: Seq<T>, bs: Seq<HclBlock>, f: spec_fn(T, HclBlock) -> bool) -> bool {
    &&& xs.len() == bs.len()
    &&& forall|i: int| 0 <= i < xs.len() ==> #[trigger] f(xs[i], bs[i])
}

proof fn lemma_list_from_push<T>(xs: Seq<T>, ys: Seq<T>, bs: Seq<HclBlock>, b: HclBlock, f: spec_fn(T, HclBlock) -> bool)
    requires
        list_from(xs, bs, f),
        ys.len() == xs.len() + 1,
        ys.take(xs.len() as int) == xs,
        f(ys[xs.len() as int], b),
    ensures
        list_from(ys, bs.push(b), f),
{
    assert forall|i: int| 0 <= i < ys.len() implies #[trigger] f(ys[i], bs.push(b)[i]) by {
        if i < xs.len() {
            assert(ys[i] == ys.take(xs.len() as int)[i]);
            assert(f(xs[i], bs[i]));
        }
    }
}

/// Whether `sf`'s entities are those the blocks of `ss` declare, kind by
/// kind in order, and its notes those the structures give.
pub open spec fn scanned_from(sf: ScannedFile, ss: Seq<HclStructure>, path: Seq<char>, content: Seq<char>) -> bool {
    &&& sf.path@ == path
    &&& str_views(sf.scan_notes@) == file_notes(ss)
    &&& list_from(sf.resources@, kind_blocks(ss, "resource"@), |x: Resource, b: HclBlock| resource_of(x, b, path, content))
    &&& list_from(sf.data_sources@, kind_blocks(ss, "data"@), |x: DataSource, b: HclBlock| data_source_of(x, b, path, content))
    &&& list_from(sf.providers@, kind_blocks(ss, "provider"@), |x: Provider, b: HclBlock| provider_of(x, b, path, content))
    &&& list_from(sf.modules@, kind_blocks(ss, "module"@), |x: Module, b: HclBlock| module_of(x, b, path, content))
    &&& list_from(sf.variables@, kind_blocks(ss, "variable"@), |x: Variable, b: HclBlock| variable_of(x, b, path, content))
    &&& list_from(sf.outputs@, kind_blocks(ss, "output"@), |x: Output, b: HclBlock| output_of(x, b, path, content))
}

fn push_note(sf: &mut ScannedFile, note: String)
    ensures
        str_views(final(sf).scan_notes@) == str_views(old(sf).scan_notes@).push(note@),
        final(sf).path == old(sf).path,
        final(sf).providers == old(sf).providers,
        final(sf).modules == old(sf).modules,
        final(sf).resources == old(sf).resources,
        final(sf).variables == old(sf).variables,
        final(sf).outputs == old(sf).outputs,
        final(sf).data_sources == old(sf).data_sources,
{
    let ghost before = sf.scan_notes@;
    let ghost nv = note@;
    sf.scan_notes.push(note);
    proof {
        assert(str_views(sf.scan_notes@) =~= str_views(before).push(nv));
    }
}

/// Notes the later-stage features a block body uses: the `count` and
/// `for_each` meta-arguments, then `provisioner`, `lifecycle` and
/// `connection` blocks.
pub fn note_stage5_features(body: &HclBody, sf: &mut ScannedFile)
    ensures
        str_views(final(sf).scan_notes@) == str_views(old(sf).scan_notes@) + stage5_notes(*body),
        final(sf).path == old(sf).path,
        final(sf).providers == old(sf).providers,
        final(sf).modules == old(sf).modules,
        final(sf).resources == old(sf).resources,
        final(sf).variables == old(sf).variables,
        final(sf).outputs == old(sf).outputs,
        final(sf).data_sources == old(sf).data_sources,
{
    let ghost ss = body.structures@;
    let ghost n0 = str_views(sf.scan_notes@);
    let mut i: usize = 0;
    proof {
        assert(ss.take(0) =~= Seq::<HclStructure>::empty());
        assert(n0 + meta_arg_notes(ss.take(0)) =~= n0);
    }
    while i < body.structures.len()
        invariant
            ss == body.structures@,
            i <= ss.len(),
            str_views(sf.scan_notes@) == n0 + meta_arg_notes(ss.take(i as int)),
            sf.path == old(sf).path,
            sf.providers == old(sf).providers,
            sf.modules == old(sf).modules,
            sf.resources == old(sf).resources,
            sf.variables == old(sf).variables,
            sf.outputs == old(sf).outputs,
            sf.data_sources == old(sf).data_sources,
        decreases ss.len() - i,
    {
        proof {
            assert(ss.take(i + 1).drop_last() =~= ss.take(i as int));
            assert(ss.take(i + 1).last() == ss[i as int]);
            reveal_strlit("count");
            reveal_strlit("for_each");
        }
        match &body.structures[i] {
            HclStructure::Attribute { key, expr } => {
                if str_eq(key.as_str(), "count") || str_eq(key.as_str(), "for_each") {
                    let mut m = owned("uses ");
                    m.append(key.as_str());
                    m.append(" meta-argument (Stage 5 feature)");
                    push_note(sf, m);
                }
            },
            HclStructure::Block(_) => {},
        }
        proof {
            assert(str_views(sf.scan_notes@) =~= n0 + meta_arg_notes(ss.take(i + 1)));
        }
        i = i + 1;
    }
    proof {
        assert(ss.take(ss.len() as int) =~= ss);
    }
    let ghost n1 = str_views(sf.scan_notes@);
    let mut j: usize = 0;
    proof {
        assert(n1 + stage5_block_notes(ss.take(0)) =~= n1);
    }
    while j < body.structures.len()
        invariant
            ss == body.structures@,
            j <= ss.len(),
            n1 == n0 + meta_arg_notes(ss),
            str_views(sf.scan_notes@) == n1 + stage5_block_notes(ss.take(j as int)),
            sf.path == old(sf).path,
            sf.providers == old(sf).providers,
            sf.modules == old(sf).modules,
            sf.resources == old(sf).resources,
            sf.variables == old(sf).variables,
            sf.outputs == old(sf).outputs,
            sf.data_sources == old(sf).data_sources,
        decreases ss.len() - j,
    {
        proof {
            assert(ss.take(j + 1).drop_last() =~= ss.take(j as int));
            assert(ss.take(j + 1).last() == ss[j as int]);
            reveal_strlit("provisioner");
            reveal_strlit("lifecycle");
            reveal_strlit("connection");
        }
        match &body.structures[j] {
            HclStructure::Block(b) => {
                let k = b.identifier.as_str();
                if str_eq(k, "provisioner") || str_eq(k, "lifecycle") || str_eq(k, "connection") {
                    let mut m = owned("uses ");
                    m.append(k);
                    m.append(" block (Stage 5 feature)");
                    push_note(sf, m);
                }
            },
            HclStructure::Attribute { .. } => {},
        }
        proof {
            assert(str_views(sf.scan_notes@) =~= n1 + stage5_block_notes(ss.take(j + 1)));
        }
        j = j + 1;
    }
    proof {
        assert(ss.take(ss.len() as int) =~= ss);
        assert(str_views(sf.scan_notes@) =~= n0 + stage5_notes(*body));
    }
}

/// Refuses a body with a `dynamic` block nested anywhere in it.
pub fn check_no_nested_dynamic(path: &str, content: &str, body: &HclBody) -> (r: Result<(), ScannerError>)
    ensures
        r is Ok <==> !body_has_dynamic(*body),
        r matches Err(e) ==> e@ == nested_dynamic_error(path@, content@),
{
    if has_nested_dynamic(body) {
        let span = approx_span(content, "dynamic", path);
        return Err(ScannerError::UnsupportedFeature {
            feature: owned("dynamic (nested)"),
            path: owned(path),
            line: span.line,
            reason: owned("nested dynamic blocks require runtime expansion; deferred to Stage 5"),
        });
    }
    Ok(())
}

/// What processing the top-level block `b` does to the scan result: the
/// entity it declares is appended to its kind's list, the other lists
/// stay, and its notes are appended.
pub open spec fn block_effect(before: ScannedFile, after: ScannedFile, b: HclBlock, path: Seq<char>, content: Seq<char>) -> bool {
    let k = b.identifier@;
    &&& after.path == before.path
    &&& str_views(after.scan_notes@) == str_views(before.scan_notes@) + kind_note(k) + stage5_notes(b.body)
    &&& if k == "resource"@ {
        &&& after.resources@.len() == before.resources@.len() + 1
        &&& after.resources@.take(before.resources@.len() as int) == before.resources@
        &&& resource_of(after.resources@[before.resources@.len() as int], b, path, content)
    } else {
        after.resources == before.resources
    }
    &&& if k == "data"@ {
        &&& after.data_sources@.len() == before.data_sources@.len() + 1
        &&& after.data_sources@.take(before.data_sources@.len() as int) == before.data_sources@
        &&& data_source_of(after.data_sources@[before.data_sources@.len() as int], b, path, content)
    } else {
        after.data_sources == before.data_sources
    }
    &&& if k == "provider"@ {
        &&& after.providers@.len() == before.providers@.len() + 1
        &&& after.providers@.take(before.providers@.len() as int) == before.providers@
        &&& provider_of(after.providers@[before.providers@.len() as int], b, path, content)
    } else {
        after.providers == before.providers
    }
    &&& if k == "module"@ {
        &&& after.modules@.len() == before.modules@.len() + 1
        &&& after.modules@.take(before.modules@.len() as int) == before.modules@
        &&& module_of(after.modules@[before.modules@.len() as int], b, path, content)
    } else {
        after.modules == before.modules
    }
    &&& if k == "variable"@ {
        &&& after.variables@.len() == before.variables@.len() + 1
        &&& after.variables@.take(before.variables@.len() as int) == before.variables@
        &&& variable_of(after.variables@[before.variables@.len() as int], b, path, content)
    } else {
        after.variables == before.variables
    }
    &&& if k == "output"@ {
        &&& after.outputs@.len() == before.outputs@.len() + 1
        &&& after.outputs@.take(before.outputs@.len() as int) == before.outputs@
        &&& output_of(after.outputs@[before.outputs@.len() as int], b, path, content)
    } else {
        after.outputs == before.outputs
    }
}

/// Processes one top-level block: refuses `dynamic` blocks (also nested)
/// and blocks with the wrong labels; otherwise extracts the entity the
/// block declares and notes its kind and later-stage features.
pub fn process_block(path: &str, content: &str, block: &HclBlock, sf: &mut ScannedFile) -> (r: Result<(), ScannerError>)
    ensures
        match block_error(*block, path@, content@) {
            Some(e) => r matches Err(x) && x@ == e,
            None => r is Ok && block_effect(*old(sf), *final(sf), *block, path@, content@),
        },
{
    proof {
        reveal_strlit("dynamic");
        reveal_strlit("resource");
        reveal_strlit("data");
        reveal_strlit("provider");
        reveal_strlit("module");
        reveal_strlit("variable");
        reveal_strlit("output");
        reveal_strlit("terraform");
        reveal_strlit("locals");
    }
    let ghost sf0 = *sf;
    let kind = block.identifier.as_str();
    let span = approx_span(content, kind, path);
    if str_eq(kind, "dynamic") {
        return Err(ScannerError::UnsupportedFeature {
            feature: owned("dynamic"),
            path: owned(path),
            line: span.line,
            reason: owned("dynamic blocks require runtime expansion; deferred to Stage 5"),
        });
    }
    if str_eq(kind, "resource") {
        let x = match parse_resource(&block.labels, &block.body, span, path) {
            Ok(x) => x,
            Err(e) => return Err(e),
        };
        sf.resources.push(x);
        proof {
            assert(sf.resources@.take(sf0.resources@.len() as int) =~= sf0.resources@);
        }
    } else if str_eq(kind, "data") {
        let x = match parse_data_source(&block.labels, &block.body, span, path) {
            Ok(x) => x,
            Err(e) => return Err(e),
        };
        sf.data_sources.push(x);
        proof {
            assert(sf.data_sources@.take(sf0.data_sources@.len() as int) =~= sf0.data_sources@);
        }
    } else if str_eq(kind, "provider") {
        let x = match parse_provider(&block.labels, &block.body, span, path) {
            Ok(x) => x,
            Err(e) => return Err(e),
        };
        sf.providers.push(x);
        proof {
            assert(sf.providers@.take(sf0.providers@.len() as int) =~= sf0.providers@);
        }
    } else if str_eq(kind, "module") {
        let x = match parse_module(&block.labels, &block.body, span, path) {
            Ok(x) => x,
            Err(e) => return Err(e),
        };
        sf.modules.push(x);
        proof {
            assert(sf.modules@.take(sf0.modules@.len() as int) =~= sf0.modules@);
        }
    } else if str_eq(kind, "variable") {
        let x = match parse_variable(&block.labels, &block.body, span, path) {
            Ok(x) => x,
            Err(e) => return Err(e),
        };
        sf.variables.push(x);
        proof {
            assert(sf.variables@.take(sf0.variables@.len() as int) =~= sf0.variables@);
        }
    } else if str_eq(kind, "output") {
        let x = match parse_output(&block.labels, &block.body, span, path) {
            Ok(x) => x,
            Err(e) => return Err(e),
        };
        sf.outputs.push(x);
        proof {
            assert(sf.outputs@.take(sf0.outputs@.len() as int) =~= sf0.outputs@);
        }
    } else if str_eq(kind, "terraform") || str_eq(kind, "locals") {
        let mut m = owned(kind);
        m.append(" block (deferred to P-05)");
        push_note(sf, m);
    } else {
        let mut m = owned("unknown block kind: ");
        m.append(kind);
        push_note(sf, m);
    }
    let ghost sf1 = *sf;
    proof {
        assert(str_views(sf1.scan_notes@) =~= str_views(sf0.scan_notes@) + kind_note(kind@));
    }
    match check_no_nested_dynamic(path, content, &block.body) {
        Ok(()) => {},
        Err(e) => return Err(e),
    }
    note_stage5_features(&block.body, sf);
    proof {
        assert(str_views(sf.scan_notes@) =~= str_views(sf0.scan_notes@) + kind_note(kind@) + stage5_notes(block.body));
    }
    Ok(())
}

proof fn lemma_kind_blocks_step(ss: Seq<HclStructure>, i: int, k: Seq<char>)
    requires
        0 <= i < ss.len(),
    ensures
        kind_blocks(ss.take(i + 1), k) == match ss[i] {
            HclStructure::Block(b) => if b.identifier@ == k {
                kind_blocks(ss.take(i), k).push(b)
            } else {
                kind_blocks(ss.take(i), k)
            },
            HclStructure::Attribute { .. } => kind_blocks(ss.take(i), k),
        },
{
    assert(ss.take(i + 1).drop_last() =~= ss.take(i));
    assert(ss.take(i + 1).last() == ss[i]);
}

proof fn lemma_scanned_block_step(
    before: ScannedFile,
    after: ScannedFile,
    ss: Seq<HclStructure>,
    i: int,
    b: HclBlock,
    path: Seq<char>,
    content: Seq<char>,
)
    requires
        0 <= i < ss.len(),
        ss[i] == HclStructure::Block(b),
        scanned_from(before, ss.take(i), path, content),
        block_effect(before, after, b, path, content),
    ensures
        scanned_from(after, ss.take(i + 1), path, content),
{
    let t = ss.take(i);
    let t1 = ss.take(i + 1);
    assert(t1.drop_last() =~= t);
    assert(t1.last() == ss[i]);
    assert(str_views(after.scan_notes@) =~= file_notes(t1));
    let k = b.identifier@;
    lemma_kind_blocks_step(ss, i, "resource"@);
    lemma_kind_blocks_step(ss, i, "data"@);
    lemma_kind_blocks_step(ss, i, "provider"@);
    lemma_kind_blocks_step(ss, i, "module"@);
    lemma_kind_blocks_step(ss, i, "variable"@);
    lemma_kind_blocks_step(ss, i, "output"@);
    if k == "resource"@ {
        lemma_list_from_push(before.resources@, after.resources@, kind_blocks(t, k), b,
            |x: Resource, b: HclBlock| resource_of(x, b, path, content));
    }
    if k == "data"@ {
        lemma_list_from_push(before.data_sources@, after.data_sources@, kind_blocks(t, k), b,
            |x: DataSource, b: HclBlock| data_source_of(x, b, path, content));
    }
    if k == "provider"@ {
        lemma_list_from_push(before.providers@, after.providers@, kind_blocks(t, k), b,
            |x: Provider, b: HclBlock| provider_of(x, b, path, content));
    }
    if k == "module"@ {
        lemma_list_from_push(before.modules@, after.modules@, kind_blocks(t, k), b,
            |x: Module, b: HclBlock| module_of(x, b, path, content));
    }
    if k == "variable"@ {
        lemma_list_from_push(before.variables@, after.variables@, kind_blocks(t, k), b,
            |x: Variable, b: HclBlock| variable_of(x, b, path, content));
    }
    if k == "output"@ {
        lemma_list_from_push(before.outputs@, after.outputs@, kind_blocks(t, k), b,
            |x: Output, b: HclBlock| output_of(x, b, path, content));
    }
}

/// Parses one `.tf` file's text into the entities it declares: refused
/// with the parser's message when it is not HCL, or with the first
/// failing top-level block's error; otherwise every top-level block's
/// entity, kind by kind in file order, and every note.
pub fn parse_file(path: &str, content: &str) -> (r: Result<ScannedFile, ScannerError>)
    ensures
        match hcl_parse(content@) {
            Err(m) => r matches Err(e) && e@ == (ScanErrorView::Parse { path: path@, message: m }),
            Ok(body) => match first_error(body.structures@, path@, content@) {
                Some(ev) => r matches Err(e) && e@ == ev,
                None => r matches Ok(sf) && scanned_from(sf, body.structures@, path@, content@),
            },
        },
{
    let body = match parse_hcl(content) {
        Ok(b) => b,
        Err(m) => return Err(ScannerError::Parse { path: owned(path), message: m }),
    };
    scan_body(path, content, &body)
}

/// The entities of one `.tf` file from the syntax tree its text parsed to
/// (`content` is the text, for the source spans): refused with the first
/// failing top-level block's error; otherwise every top-level block's
/// entity, kind by kind in file order, and every note.
pub fn scan_body(path: &str, content: &str, body: &HclBody) -> (r: Result<ScannedFile, ScannerError>)
    ensures
        match first_error(body.structures@, path@, content@) {
            Some(ev) => r matches Err(e) && e@ == ev,
            None => r matches Ok(sf) && scanned_from(sf, body.structures@, path@, content@),
        },
{
    let ghost ss = body.structures@;
    let mut sf = ScannedFile::new(owned(path));
    proof {
        assert(ss.take(0) =~= Seq::<HclStructure>::empty());
        assert(str_views(sf.scan_notes@) =~= file_notes(ss.take(0)));
    }
    let mut i: usize = 0;
    while i < body.structures.len()
        invariant
            ss == body.structures@,
            i <= ss.len(),
            first_error(ss.take(i as int), path@, content@) is None,
            scanned_from(sf, ss.take(i as int), path@, content@),
        decreases ss.len() - i,
    {
        let ghost t = ss.take(i as int);
        let ghost t1 = ss.take(i + 1);
        proof {
            assert(t1.drop_last() =~= t);
            assert(t1.last() == ss[i as int]);
        }
        match &body.structures[i] {
            HclStructure::Block(b) => {
                let ghost before = sf;
                match process_block(path, content, b, &mut sf) {
                    Ok(()) => {},
                    Err(e) => {
                        proof {
                            lemma_first_error_prefix(ss, i as int + 1, path@, content@);
                        }
                        return Err(e);
                    },
                }
                proof {
                    lemma_scanned_block_step(before, sf, ss, i as int, *b, path@, content@);
                }
            },
            HclStructure::Attribute { .. } => {
                let ghost before = sf;
                push_note(&mut sf, owned("top-level attribute outside block"));
                proof {
                    assert(str_views(sf.scan_notes@) =~= file_notes(t1));
                    lemma_kind_blocks_step(ss, i as int, "resource"@);
                    lemma_kind_blocks_step(ss, i as int, "data"@);
                    lemma_kind_blocks_step(ss, i as int, "provider"@);
                    lemma_kind_blocks_step(ss, i as int, "module"@);
                    lemma_kind_blocks_step(ss, i as int, "variable"@);
                    lemma_kind_blocks_step(ss, i as int, "output"@);
                }
            },
        }
        i = i + 1;
    }
    proof {
        assert(ss.take(ss.len() as int) =~= ss);
    }
    Ok(sf)
}

proof fn lemma_first_error_prefix(ss: Seq<HclStructure>, n: int, path: Seq<char>, content: Seq<char>)
    requires
        0 <= n <= ss.len(),
        first_error(ss.take(n), path, content) is Some,
    ensures
        first_error(ss, path, content) == first_error(ss.take(n), path, content),
    decreases ss.len() - n,
{
    if n < ss.len() {
        assert(ss.take(n + 1).drop_last() =~= ss.take(n));
        lemma_first_error_prefix(ss, n + 1, path, content);
    } else {
        assert(ss.take(n) =~= ss);
    }
}

/// The stateless scanner front.
pub struct Scanner;

/// What parsing a file's text refuses it with, if anything: the parser's
/// message, or the first failing top-level block's error.
pub open spec fn file_error(path: Seq<char>, content: Seq<char>) -> Option<ScanErrorView> {
    match hcl_parse(content) {
        Err(m) => Some(ScanErrorView::Parse { path, message: m }),
        Ok(body) => first_error(body.structures@, path, content),
    }
}

/// Whether `sf` is what parsing the file's text gives.
pub open spec fn file_parses_to(path: Seq<char>, content: Seq<char>, sf: ScannedFile) -> bool {
    hcl_parse(content) matches Ok(body) && first_error(body.structures@, path, content) is None && scanned_from(
        sf,
        body.structures@,
        path,
        content,
    )
}

/// What stops a scan at a discovered file: the read failure, or the
/// parse failure of its text.
pub open spec fn read_error(f: (String, Result<String, String>)) -> Option<ScanErrorView> {
    match f.1 {
        Err(m) => Some(ScanErrorView::Io { path: f.0@, message: m@ }),
        Ok(c) => file_error(f.0@, c@),
    }
}

impl Scanner {
    /// The inventory of an estate from its discovered `.tf` files, each
    /// with its path and its text as read (or the read failure): the
    /// first file, in order, that could not be read or parsed stops the
    /// scan with that error; otherwise every file's entities, in order.
    pub fn scan(root: &str, files: Vec<(String, Result<String, String>)>) -> (r: Result<EstateInventory, ScannerError>)
        ensures
            r is Ok <==> forall|i: int| 0 <= i < files@.len() ==> #[trigger] read_error(files@[i]) is None,
            r matches Ok(inv) ==> inv.root_dir@ == root@ && inv.files@.len() == files@.len() && forall|i: int|
                0 <= i < files@.len() ==> ((#[trigger] files@[i]).1 matches Ok(c) && file_parses_to(
                    files@[i].0@,
                    c@,
                    inv.files@[i],
                )),
            r matches Err(e) ==> exists|i: int|
                #![trigger files@[i]]
                0 <= i < files@.len() && (forall|j: int| 0 <= j < i ==> #[trigger] read_error(files@[j]) is None)
                    && read_error(files@[i]) == Some(e@),
    {
        let mut out: Vec<ScannedFile> = Vec::new();
        let mut i: usize = 0;
        while i < files.len()
            invariant
                i <= files@.len(),
                out@.len() == i,
                forall|j: int| 0 <= j < i ==> #[trigger] read_error(files@[j]) is None,
                forall|j: int| 0 <= j < i ==> ((#[trigger] files@[j]).1 matches Ok(c) && file_parses_to(
                    files@[j].0@,
                    c@,
                    out@[j],
                )),
            decreases files@.len() - i,
        {
            let f = &files[i];
            match &f.1 {
                Err(m) => {
                    let e = ScannerError::Io { path: f.0.clone(), message: m.clone() };
                    assert(read_error(files@[i as int]) == Some(e@));
                    return Err(e);
                },
                Ok(c) => match parse_file(f.0.as_str(), c.as_str()) {
                    Err(e) => {
                        assert(read_error(files@[i as int]) == Some(e@));
                        return Err(e);
                    },
                    Ok(sf) => {
                        out.push(sf);
                    },
                },
            }
            i = i + 1;
        }
        Ok(EstateInventory { root_dir: owned(root), files: out })
    }

    /// Parses one file's text; see `parse_file`.
    pub fn parse_file(path: &str, content: &str) -> (r: Result<ScannedFile, ScannerError>)
        ensures
            match hcl_parse(content@) {
                Err(m) => r matches Err(e) && e@ == (ScanErrorView::Parse { path: path@, message: m }),
                Ok(body) => match first_error(body.structures@, path@, content@) {
                    Some(ev) => r matches Err(e) && e@ == ev,
                    None => r matches Ok(sf) && scanned_from(sf, body.structures@, path@, content@),
                },
            },
    {
        parse_file(path, content)
    }
}

/// Whether a directory entry is skipped while discovering `.tf` files:
/// never the root (depth 0); otherwise hidden names (leading '.') and the
/// generated directories `target` and `node_modules`.
pub fn is_hidden_or_skipped(name: &str, depth: usize) -> (r: bool)
    ensures
        r == (depth != 0 && ((name@.len() > 0 && name@[0] == '.') || name@ == "target"@ || name@
            == "node_modules"@)),
{
    if depth == 0 {
        return false;
    }
    let cs = chars_of(name);
    if cs.len() > 0 && cs[0] == '.' {
        return true;
    }
    str_eq(name, "target") || str_eq(name, "node_modules")
}

} // verus!
