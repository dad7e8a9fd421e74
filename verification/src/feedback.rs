//! The user relationship: pre-filled feedback issue links, the telemetry
//! opt-in decision, and the (local, no-op) telemetry recorder.
use vstd::prelude::*;
use vstd::utf8::encode_utf8;
use crate::strmap::StrMap;
use crate::recovery::JsonValue;
use crate::text::{chars_of, string_from_chars, push_char, concat2, concat3, owned, join_with, seq_lt};
use crate::mapper::{uuid_string, uuid_text};

verus! {

/// What kind of feedback a report is.
#[derive(Clone, Copy, Debug, PartialEq, Eq, Structural)]
pub enum FeedbackCategory {
    Bug,
    Idea,
    Other,
}

/// The issue label of a category.
pub open spec fn category_label(c: FeedbackCategory) -> Seq<char> {
    match c {
        FeedbackCategory::Bug => "bug"@,
        FeedbackCategory::Idea => "idea"@,
        FeedbackCategory::Other => "other"@,
    }
}

impl FeedbackCategory {
    /// The category's label: `bug`, `idea` or `other`.
    pub fn as_label(&self) -> (r: &'static str)
        ensures
            r@ == category_label(*self),
    {
        match self {
            FeedbackCategory::Bug => "bug",
            FeedbackCategory::Idea => "idea",
            FeedbackCategory::Other => "other",
        }
    }
}

/// A user's feedback.
pub struct FeedbackReport {
    pub category: FeedbackCategory,
    pub message: String,
    /// The migration run it concerns (the UUID's 128 bits), if any.
    pub run_id: Option<u128>,
    pub version: String,
}

/// `s` cut to at most `max` characters: a longer text keeps its first
/// `max - 1` characters and ends in '…'.
pub open spec fn truncate_text(s: Seq<char>, max: nat) -> Seq<char> {
    if s.len() <= max {
        s
    } else {
        s.take(max - 1).push('…')
    }
}

/// Cuts `s` to at most `max` characters (see `truncate_text`). A
/// non-empty text cannot be cut to zero characters.
pub fn truncate(s: &str, max: usize) -> (r: String)
    requires
        max > 0 || s@.len() == 0,
    ensures
        r@ == truncate_text(s@, max as nat),
{
    let cs = chars_of(s);
    if cs.len() <= max {
        owned(s)
    } else {
        let mut out = string_from_chars(&cs, 0, max - 1);
        push_char(&mut out, '…');
        proof {
            assert(cs@.subrange(0, max - 1) =~= s@.take(max - 1));
        }
        out
    }
}

/// Whether a byte is left as is by percent-encoding: ASCII letters and
/// digits, '-', '_', '.', '~'.
pub open spec fn unreserved(b: u8) -> bool {
    (65 <= b <= 90) || (97 <= b <= 122) || (48 <= b <= 57) || b == 45 || b == 95 || b == 46 || b == 126
}

/// The upper-case hexadecimal digit of `d` (below sixteen).
pub open spec fn hex_upper(d: u8) -> char {
    if d < 10 {
        ((48 + d) as u8) as char
    } else {
        ((55 + d) as u8) as char
    }
}

/// The percent-encoding of one byte.
pub open spec fn pct_byte(b: u8) -> Seq<char> {
    if unreserved(b) {
        seq![b as char]
    } else {
        seq!['%', hex_upper(b / 16), hex_upper(b % 16)]
    }
}

/// The percent-encoding of a byte string.
pub open spec fn percent_text(bytes: Seq<u8>) -> Seq<char>
    decreases bytes.len(),
{
    if bytes.len() == 0 {
        Seq::empty()
    } else {
        percent_text(bytes.drop_last()) + pct_byte(bytes.last())
    }
}

fn hex_upper_char(d: u8) -> (r: char)
    requires
        d < 16,
    ensures
        r == hex_upper(d),
{
    if d < 10 {
        ((48 + d) as u8) as char
    } else {
        ((55 + d) as u8) as char
    }
}

/// Percent-encodes the UTF-8 bytes of `s`: unreserved bytes stay, every
/// other byte becomes `%XX` (upper-case hex).
pub fn percent_encode(s: &str) -> (r: String)
    ensures
        r@ == percent_text(encode_utf8(s@)),
{
    let bytes = s.as_bytes();
    let ghost bs = encode_utf8(s@);
    let mut out = String::new();
    let mut i: usize = 0;
    while i < bytes.len()
        invariant
            bytes@ == bs,
            i <= bs.len(),
            out@ == percent_text(bs.take(i as int)),
        decreases bs.len() - i,
    {
        let b = bytes[i];
        proof {
            assert(bs.take(i + 1).drop_last() =~= bs.take(i as int));
            assert(bs.take(i + 1).last() == b);
        }
        let ghost before = out@;
        if (b >= 65 && b <= 90) || (b >= 97 && b <= 122) || (b >= 48 && b <= 57) || b == 45 || b == 95 || b == 46
            || b == 126 {
            push_char(&mut out, b as char);
        } else {
            push_char(&mut out, '%');
            push_char(&mut out, hex_upper_char(b / 16));
            push_char(&mut out, hex_upper_char(b % 16));
        }
        proof {
            assert(out@ =~= before + pct_byte(b));
        }
        i = i + 1;
    }
    proof {
        assert(bs.take(bs.len() as int) =~= bs);
    }
    out
}

/// A query string: each pair as `key=value`, both percent-encoded,
/// joined with '&'.
pub open spec fn query_text(pairs: Seq<(Seq<char>, Seq<char>)>) -> Seq<char> {
    join_with(
        Seq::new(
            pairs.len(),
            |i: int| percent_text(encode_utf8(pairs[i].0)) + "="@ + percent_text(encode_utf8(pairs[i].1)),
        ),
        "&"@,
    )
}

/// The pairs of a string map, in key order.
pub open spec fn pairs_view(m: Seq<(Seq<char>, String)>) -> Seq<(Seq<char>, Seq<char>)> {
    Seq::new(m.len(), |i: int| (m[i].0, m[i].1@))
}

/// Encodes the pairs, in key order, as a query string.
pub fn url_encode(pairs: &StrMap<String>) -> (r: String)
    ensures
        r@ == query_text(pairs_view(pairs@)),
{
    let ghost ps = pairs_view(pairs@);
    let ghost parts = Seq::new(
        ps.len(),
        |i: int| percent_text(encode_utf8(ps[i].0)) + "="@ + percent_text(encode_utf8(ps[i].1)),
    );
    let n = pairs.len();
    let mut out = String::new();
    let mut i: usize = 0;
    while i < n
        invariant
            n == pairs@.len(),
            ps == pairs_view(pairs@),
            parts == Seq::new(
                ps.len(),
                |i: int| percent_text(encode_utf8(ps[i].0)) + "="@ + percent_text(encode_utf8(ps[i].1)),
            ),
            i <= n,
            out@ == join_with(parts.take(i as int), "&"@),
        decreases n - i,
    {
        proof {
            assert(parts.take(i + 1).drop_last() =~= parts.take(i as int));
        }
        let ghost before = out@;
        if i > 0 {
            push_char(&mut out, '&');
        }
        proof {
            reveal_strlit("&");
            reveal_strlit("=");
        }
        let key = pairs.key_at(i);
        let value = pairs.value_at(i);
        let k = percent_encode(key.as_str());
        let v = percent_encode(value.as_str());
        out.append(k.as_str());
        push_char(&mut out, '=');
        out.append(v.as_str());
        proof {
            assert(ps[i as int].0 == key@);
            assert(ps[i as int].1 == value@);
            assert(parts[i as int] == k@ + "="@ + v@);
            assert(parts.take(i + 1).last() == parts[i as int]);
            if i == 0 {
                assert(parts.take(1)[0] == parts[0]);
                assert(out@ =~= parts[0]);
            } else {
                assert(out@ =~= before + "&"@ + parts[i as int]);
            }
        }
        i = i + 1;
    }
    proof {
        assert(parts.take(n as int) =~= parts);
    }
    out
}

/// `s` without its trailing '/' characters.
pub open spec fn trim_slashes(s: Seq<char>) -> Seq<char>
    decreases s.len(),
{
    if s.len() > 0 && s.last() == '/' {
        trim_slashes(s.drop_last())
    } else {
        s
    }
}

fn trim_end_slashes(s: &str) -> (r: String)
    ensures
        r@ == trim_slashes(s@),
{
    let cs = chars_of(s);
    let mut end = cs.len();
    assert(s@.take(end as int) =~= s@);
    while end > 0 && cs[end - 1] == '/'
        invariant
            cs@ == s@,
            end <= cs@.len(),
            trim_slashes(s@) == trim_slashes(s@.take(end as int)),
        decreases end,
    {
        proof {
            assert(s@.take(end as int).drop_last() =~= s@.take(end - 1));
        }
        end = end - 1;
    }
    assert(cs@.subrange(0, end as int) =~= s@.take(end as int));
    string_from_chars(&cs, 0, end)
}

/// The issue title: `[<label>] <message cut to 60 characters>`.
pub open spec fn issue_title(r: FeedbackReport) -> Seq<char> {
    "["@ + category_label(r.category) + "] "@ + truncate_text(r.message@, 60)
}

/// The issue body: the category, the message, the version and, when the
/// report has one, the run id.
pub open spec fn issue_body(r: FeedbackReport) -> Seq<char> {
    "**Category:** "@ + category_label(r.category) + "\n\n**Message:**\n\n"@ + r.message@ + "\n\n**Version:** "@
        + r.version@ + match r.run_id {
        Some(id) => "\n**Run ID:** "@ + uuid_text(id),
        None => Seq::empty(),
    }
}

/// The pre-filled issue link: the repository (without trailing '/'),
/// `/issues/new?`, and the query with `body`, `labels=user-feedback`,
/// `template=feedback.md` and `title`, in key order.
pub open spec fn issue_url(r: FeedbackReport, repo: Seq<char>) -> Seq<char> {
    trim_slashes(repo) + "/issues/new?"@ + query_text(
        seq![
            ("body"@, issue_body(r)),
            ("labels"@, "user-feedback"@),
            ("template"@, "feedback.md"@),
            ("title"@, issue_title(r)),
        ],
    )
}

impl FeedbackReport {
    /// The pre-filled GitHub issue link for this report (see `issue_url`).
    pub fn to_github_issue_url(&self, repo: &str) -> (r: String)
        ensures
            r@ == issue_url(*self, repo@),
    {
        let label = self.category.as_label();
        let mut title = concat3("[", label, "] ");
        let cut = truncate(self.message.as_str(), 60);
        title.append(cut.as_str());
        let mut body = concat2("**Category:** ", label);
        body.append("\n\n**Message:**\n\n");
        body.append(self.message.as_str());
        body.append("\n\n**Version:** ");
        body.append(self.version.as_str());
        match self.run_id {
            Some(id) => {
                body.append("\n**Run ID:** ");
                let t = uuid_string(id);
                body.append(t.as_str());
            },
            None => {},
        }
        let mut q: StrMap<String> = StrMap::new();
        proof {
            reveal_strlit("body");
            reveal_strlit("labels");
            reveal_strlit("template");
            reveal_strlit("title");
            reveal_with_fuel(seq_lt, 3);
            assert(seq_lt("body"@, "labels"@));
            assert(seq_lt("labels"@, "template"@));
            assert(seq_lt("template"@, "title"@));
            crate::text::lemma_seq_lt_transitive("body"@, "labels"@, "template"@);
            crate::text::lemma_seq_lt_transitive("body"@, "template"@, "title"@);
            crate::text::lemma_seq_lt_transitive("labels"@, "template"@, "title"@);
        }
        assert(title@ =~= issue_title(*self));
        assert(body@ =~= issue_body(*self));
        let ghost body_v = body@;
        let ghost title_v = title@;
        q.push_last(owned("body"), body);
        q.push_last(owned("labels"), owned("user-feedback"));
        q.push_last(owned("template"), owned("feedback.md"));
        q.push_last(owned("title"), title);
        let query = url_encode(&q);
        proof {
            assert(pairs_view(q@) =~= seq![
                ("body"@, body_v),
                ("labels"@, "user-feedback"@),
                ("template"@, "feedback.md"@),
                ("title"@, title_v),
            ]);
        }
        let mut url = trim_end_slashes(repo);
        url.append("/issues/new?");
        url.append(query.as_str());
        proof {
            assert(seq![
                ("body"@, body_v),
                ("labels"@, "user-feedback"@),
                ("template"@, "feedback.md"@),
                ("title"@, title_v),
            ] =~= seq![
                ("body"@, issue_body(*self)),
                ("labels"@, "user-feedback"@),
                ("template"@, "feedback.md"@),
                ("title"@, issue_title(*self)),
            ]);
            assert(url@ =~= trim_slashes(repo@) + "/issues/new?"@ + query@);
        }
        url
    }
}

/// Whether telemetry may be sent.
#[derive(Clone, Copy, Debug, PartialEq, Eq, Structural)]
pub enum OptIn {
    Disabled,
    Enabled,
}

/// What is persisted of the opt-in decision: the choice, and whether the
/// user was asked.
#[derive(Clone, Copy, Debug, PartialEq, Eq, Structural)]
pub struct OptInRecord {
    pub opt_in: OptIn,
    pub asked: bool,
}

/// The opt-in state that a persisted record gives: disabled when nothing
/// was recorded.
pub open spec fn opt_in_state(record: Option<OptInRecord>) -> OptIn {
    match record {
        Some(rec) => rec.opt_in,
        None => OptIn::Disabled,
    }
}

/// Whether the user is to be asked: when nothing was recorded, or the
/// record says they were not asked.
pub open spec fn needs_prompt(record: Option<OptInRecord>) -> bool {
    match record {
        Some(rec) => !rec.asked,
        None => true,
    }
}

/// The record that persists a choice: the choice, asked.
pub open spec fn recorded(opt_in: OptIn) -> OptInRecord {
    OptInRecord { opt_in, asked: true }
}

/// The opt-in state that the persisted record gives: disabled when
/// nothing was recorded.
pub fn state_from(record: Option<&OptInRecord>) -> (r: OptIn)
    ensures
        r == opt_in_state(match record {
            Some(rec) => Some(*rec),
            None => None,
        }),
{
    match record {
        Some(rec) => rec.opt_in,
        None => OptIn::Disabled,
    }
}

/// Whether the user should be asked: when nothing was recorded, or the
/// record says they were not asked.
pub fn prompt_needed(record: Option<&OptInRecord>) -> (r: bool)
    ensures
        r == needs_prompt(match record {
            Some(rec) => Some(*rec),
            None => None,
        }),
{
    match record {
        Some(rec) => !rec.asked,
        None => true,
    }
}

/// The record that persists a choice: the choice, asked.
pub fn record_for(opt_in: OptIn) -> (r: OptInRecord)
    ensures
        r == recorded(opt_in),
{
    OptInRecord { opt_in, asked: true }
}

/// Nothing recorded reads as disabled and asks the user; a recorded
/// choice reads back as that choice and the user is not asked again; the
/// last of two recorded choices is the one read back.
pub proof fn law_recorded_choice_is_read_back(first: OptIn, second: OptIn)
    ensures
        opt_in_state(None) == OptIn::Disabled,
        needs_prompt(None),
        opt_in_state(Some(recorded(first))) == first,
        !needs_prompt(Some(recorded(first))),
        opt_in_state(Some(recorded(second))) == second,
{
}

/// Why the opt-in state could not be read or written.
pub enum OptInError {
    Read(String, String),
    Write(String, String),
    Parse(String, String),
    HomeMissing,
}

impl OptInError {
    /// The error's message.
    pub fn message(&self) -> (r: String)
        ensures
            r@ == match *self {
                OptInError::Read(p, e) => "read "@ + p@ + ": "@ + e@,
                OptInError::Write(p, e) => "write "@ + p@ + ": "@ + e@,
                OptInError::Parse(p, e) => "parse "@ + p@ + ": "@ + e@,
                OptInError::HomeMissing => "home directory not found"@,
            },
    {
        match self {
            OptInError::Read(p, e) => {
                let mut s = concat3("read ", p.as_str(), ": ");
                s.append(e.as_str());
                s
            },
            OptInError::Write(p, e) => {
                let mut s = concat3("write ", p.as_str(), ": ");
                s.append(e.as_str());
                s
            },
            OptInError::Parse(p, e) => {
                let mut s = concat3("parse ", p.as_str(), ": ");
                s.append(e.as_str());
                s
            },
            OptInError::HomeMissing => owned("home directory not found"),
        }
    }
}

/// A telemetry event: its name and properties.
pub struct Event {
    pub name: String,
    pub properties: StrMap<JsonValue>,
}

/// Why an event was refused.
#[derive(Clone, Copy, Debug, PartialEq, Eq, Structural)]
pub enum TelemetryError {
    EmptyName,
}

impl TelemetryError {
    /// The error's message.
    pub fn message(&self) -> (r: String)
        ensures
            r@ == "event name empty"@,
    {
        owned("event name empty")
    }
}

/// Records an event: an event without a name is refused; otherwise the
/// event is accepted (and, without opt-in, dropped). Nothing is sent.
pub fn record_event(opt_in: OptIn, ev: Event) -> (r: Result<(), TelemetryError>)
    ensures
        r == if ev.name@.len() == 0 { Err(TelemetryError::EmptyName) } else { Ok::<(), TelemetryError>(()) },
{
    if ev.name.as_str().is_empty() {
        return Err(TelemetryError::EmptyName);
    }
    match opt_in {
        OptIn::Disabled => Ok(()),
        OptIn::Enabled => Ok(()),
    }
}

} // verus!
