//! Directory-level golden comparison: file listings by name, contents
//! byte for byte, and a unified diff of each mismatch.
use vstd::prelude::*;
use vstd::utf8::{valid_utf8, decode_utf8};
use crate::strmap::{StrMap, sorted_keys, has_key};
use crate::text::{chars_of, concat2, concat3, path_join, join_path, seq_lt, join_with, join_strings};
use crate::eval::errors::{EvalError, IoFailure, IoKind, failure_view};

verus! {

/// The outcome of comparing an emitted directory with the expected one.
pub struct ComparisonResult {
    pub passed: bool,
    /// `None` when `passed`; otherwise the missing and extra file names
    /// and the unified diff of each mismatched file.
    pub diff: Option<String>,
}

/// The kind of one line of a line diff.
#[derive(Clone, Copy, Debug, PartialEq, Eq, Structural)]
pub enum ChangeKind {
    Delete,
    Insert,
    Equal,
}

/// The line-by-line changes that turn `old` into `new`, as the `similar`
/// crate's line diff computes them: each change's kind and line text
/// (with its line ending, if it has one).
pub uninterp spec fn line_changes(old: Seq<char>, new: Seq<char>) -> Seq<(ChangeKind, Seq<char>)>;

/// The changes of a diff, with each line taken by its text.
pub open spec fn changes_view(v: Seq<(ChangeKind, String)>) -> Seq<(ChangeKind, Seq<char>)> {
    Seq::new(v.len(), |i: int| (v[i].0, v[i].1@))
}

/// Trusted: `similar::TextDiff::from_lines(old, new)` followed by
/// `iter_all_changes`, each change converted to its kind and its value.
/// The contract only names the result (`line_changes`): which lines the
/// diff algorithm pairs up is not restated here.
#[verifier::external_body]
fn diff_lines(old: &str, new: &str) -> (r: Vec<(ChangeKind, String)>)
    ensures
        changes_view(r@) == line_changes(old@, new@),
{
    let diff = similar::TextDiff::from_lines(old, new);
    diff.iter_all_changes().map(|c| {
        let kind = match c.tag() {
            similar::ChangeTag::Delete => ChangeKind::Delete,
            similar::ChangeTag::Insert => ChangeKind::Insert,
            similar::ChangeTag::Equal => ChangeKind::Equal,
        };
        (kind, c.value().to_string())
    }).collect()
}

/// The text that `String::from_utf8_lossy` gives for `bytes`.
pub uninterp spec fn utf8_lossy(bytes: Seq<u8>) -> Seq<char>;

/// Trusted: `String::from_utf8_lossy(bytes)`, owned. std documents that
/// valid UTF-8 decodes as is (invalid sequences become U+FFFD, which the
/// contract leaves to the name `utf8_lossy`).
#[verifier::external_body]
fn lossy_text(bytes: &Vec<u8>) -> (r: String)
    ensures
        r@ == utf8_lossy(bytes@),
        valid_utf8(bytes@) ==> r@ == decode_utf8(bytes@),
{
    String::from_utf8_lossy(bytes.as_slice()).into_owned()
}

/// The sign column of a diff line.
pub open spec fn change_sign(k: ChangeKind) -> Seq<char> {
    match k {
        ChangeKind::Delete => "-"@,
        ChangeKind::Insert => "+"@,
        ChangeKind::Equal => " "@,
    }
}

/// One rendered diff line: the sign, the line as the change displays it
/// (a newline added when the line ends in neither '\r' nor '\n'), and one
/// more newline when the line does not end in '\n'.
pub open spec fn change_text(c: (ChangeKind, Seq<char>)) -> Seq<char> {
    let v = c.1;
    let display = if v.len() > 0 && (v.last() == '\r' || v.last() == '\n') { v } else { v + "\n"@ };
    change_sign(c.0) + display + if v.len() > 0 && v.last() == '\n' { Seq::empty() } else { "\n"@ }
}

/// All rendered diff lines, in order.
pub open spec fn changes_text(cs: Seq<(ChangeKind, Seq<char>)>) -> Seq<char>
    decreases cs.len(),
{
    if cs.len() == 0 {
        Seq::empty()
    } else {
        changes_text(cs.drop_last()) + change_text(cs.last())
    }
}

/// The unified diff of a file: two header lines naming it, then the
/// rendered line diff from `expected` to `actual`.
pub open spec fn unified_diff_text(expected: Seq<char>, actual: Seq<char>, filename: Seq<char>) -> Seq<char> {
    "--- expected/"@ + filename + "\n"@ + "+++ actual/"@ + filename + "\n"@ + changes_text(
        line_changes(expected, actual),
    )
}

fn last_is(cs: &Vec<char>, c: char) -> (r: bool)
    ensures
        r == (cs@.len() > 0 && cs@.last() == c),
{
    cs.len() > 0 && cs[cs.len() - 1] == c
}

/// Renders the unified diff from `expected` to `actual` for `filename`.
pub fn unified_diff(expected: &str, actual: &str, filename: &str) -> (r: String)
    ensures
        r@ == unified_diff_text(expected@, actual@, filename@),
{
    let changes = diff_lines(expected, actual);
    render_unified_diff(filename, &changes)
}

/// Renders a unified diff for `filename` from its line changes: two header
/// lines naming the file, then each change with its sign.
pub fn render_unified_diff(filename: &str, changes: &Vec<(ChangeKind, String)>) -> (r: String)
    ensures
        r@ == "--- expected/"@ + filename@ + "\n"@ + "+++ actual/"@ + filename@ + "\n"@ + changes_text(
            changes_view(changes@),
        ),
{
    let mut out = concat3("--- expected/", filename, "\n");
    out.append("+++ actual/");
    out.append(filename);
    out.append("\n");
    let ghost head = out@;
    let ghost cs = changes_view(changes@);
    let mut i: usize = 0;
    while i < changes.len()
        invariant
            cs == changes_view(changes@),
            i <= changes@.len(),
            out@ == head + changes_text(cs.take(i as int)),
        decreases changes@.len() - i,
    {
        let (kind, value) = (changes[i].0, &changes[i].1);
        proof {
            assert(cs.take(i + 1).drop_last() =~= cs.take(i as int));
            assert(cs.take(i + 1).last() == (kind, value@));
        }
        let ghost before = out@;
        match kind {
            ChangeKind::Delete => out.append("-"),
            ChangeKind::Insert => out.append("+"),
            ChangeKind::Equal => out.append(" "),
        }
        out.append(value.as_str());
        let vs = chars_of(value.as_str());
        if !(last_is(&vs, '\r') || last_is(&vs, '\n')) {
            out.append("\n");
        }
        if !last_is(&vs, '\n') {
            out.append("\n");
        }
        proof {
            assert(out@ =~= before + change_text((kind, value@)));
        }
        i = i + 1;
    }
    proof {
        assert(cs.take(changes@.len() as int) =~= cs);
        assert(head =~= "--- expected/"@ + filename@ + "\n"@ + "+++ actual/"@ + filename@ + "\n"@);
    }
    out
}

/// One entry of a directory listing: its name, whether it is a regular
/// file, and its contents as read (or why reading failed).
pub struct DirFile {
    pub name: String,
    pub is_file: bool,
    pub content: Result<Vec<u8>, IoFailure>,
}

/// A directory as listed.
pub enum DirListing {
    /// The path is not a directory.
    NotADirectory,
    /// The directory could not be read.
    Unreadable(IoFailure),
    /// The directory's entries.
    Entries(Vec<DirFile>),
}

/// Whether the file name has the extension `tf` (as `Path::extension`
/// reads it: the part after the last '.', which must not be the first
/// character).
pub open spec fn has_tf_extension(name: Seq<char>) -> bool {
    name.len() >= 4 && name.subrange(name.len() - 3, name.len() as int) == ".tf"@
}

/// Whether the file name ends in `.tf` after at least one character.
pub fn is_tf_name(name: &str) -> (r: bool)
    ensures
        r == has_tf_extension(name@),
{
    let cs = chars_of(name);
    let n = cs.len();
    if n < 4 {
        return false;
    }
    let r = cs[n - 3] == '.' && cs[n - 2] == 't' && cs[n - 1] == 'f';
    proof {
        reveal_strlit(".tf");
        let tail = name@.subrange(n - 3, n as int);
        if r {
            assert(tail =~= ".tf"@);
        } else if tail == ".tf"@ {
            assert(tail[0] == '.' && tail[1] == 't' && tail[2] == 'f');
        }
    }
    r
}

/// The contents of an entry: the bytes read, or the read failure.
pub open spec fn content_view(f: DirFile) -> Result<Seq<u8>, (IoKind, Seq<char>)> {
    match f.content {
        Ok(b) => Ok(b@),
        Err(e) => Err(failure_view(e)),
    }
}

/// The `.tf` files of a listing by name, each with the contents of the
/// first entry of that name.
pub open spec fn tf_files(es: Seq<DirFile>) -> Map<Seq<char>, Result<Seq<u8>, (IoKind, Seq<char>)>>
    decreases es.len(),
{
    if es.len() == 0 {
        Map::empty()
    } else {
        let m = tf_files(es.drop_last());
        let e = es.last();
        if e.is_file && has_tf_extension(e.name@) && !m.dom().contains(e.name@) {
            m.insert(e.name@, content_view(e))
        } else {
            m
        }
    }
}

proof fn lemma_tf_files_finite(es: Seq<DirFile>)
    ensures
        tf_files(es).dom().finite(),
    decreases es.len(),
{
    if es.len() > 0 {
        lemma_tf_files_finite(es.drop_last());
    }
}

/// Whether `m` maps each `.tf` file name of `es` to the position of an
/// entry of that name whose contents are the file's.
pub open spec fn indexes(m: StrMap<usize>, es: Seq<DirFile>) -> bool {
    &&& forall|q: Seq<char>| #[trigger] m.spec_has(q) == tf_files(es).dom().contains(q)
    &&& forall|q: Seq<char>| #[trigger] m.spec_get(q) is Some ==> {
        let i = m.spec_get(q)->0;
        &&& i < es.len()
        &&& es[i as int].name@ == q
        &&& content_view(es[i as int]) == tf_files(es)[q]
    }
}

/// The `.tf` files of `es`, each name mapped to the position of its first
/// entry.
fn index_tf_files(es: &Vec<DirFile>) -> (r: StrMap<usize>)
    ensures
        indexes(r, es@),
{
    let mut m: StrMap<usize> = StrMap::new();
    let mut k: usize = 0;
    proof {
        assert forall|q: Seq<char>| #[trigger] m.spec_has(q) == tf_files(es@.take(0)).dom().contains(q) by {
            assert(tf_files(es@.take(0)) == Map::<Seq<char>, Result<Seq<u8>, (IoKind, Seq<char>)>>::empty());
        }
    }
    while k < es.len()
        invariant
            k <= es@.len(),
            indexes(m, es@.take(k as int)),
        decreases es@.len() - k,
    {
        let e = &es[k];
        let ghost before = m;
        let ghost t0 = es@.take(k as int);
        let ghost t = es@.take(k + 1);
        proof {
            assert(t.drop_last() =~= t0);
            assert(t.last() == *e);
            assert forall|i: int| 0 <= i < k implies #[trigger] t[i] == t0[i] by {}
        }
        if e.is_file && is_tf_name(e.name.as_str()) && !m.contains_key(e.name.as_str()) {
            m.insert(e.name.clone(), k);
            proof {
                assert forall|q: Seq<char>| #[trigger] m.spec_has(q) == tf_files(t).dom().contains(q) by {
                    crate::strmap::lemma_has_get(m, q);
                    crate::strmap::lemma_has_get(before, q);
                }
                assert forall|q: Seq<char>| #[trigger] m.spec_get(q) is Some implies {
                    let i = m.spec_get(q)->0;
                    &&& i < t.len()
                    &&& t[i as int].name@ == q
                    &&& content_view(t[i as int]) == tf_files(t)[q]
                } by {
                    if q != e.name@ {
                        assert(before.spec_get(q) is Some);
                        let i = before.spec_get(q)->0;
                        assert(t[i as int] == t0[i as int]);
                    }
                }
            }
        } else {
            proof {
                assert(tf_files(t) == tf_files(t0));
                assert forall|q: Seq<char>| #[trigger] m.spec_get(q) is Some implies {
                    let i = m.spec_get(q)->0;
                    &&& i < t.len()
                    &&& t[i as int].name@ == q
                    &&& content_view(t[i as int]) == tf_files(t)[q]
                } by {
                    let i = m.spec_get(q)->0;
                    assert(t[i as int] == t0[i as int]);
                }
            }
        }
        k = k + 1;
    }
    proof {
        assert(es@.take(es@.len() as int) =~= es@);
    }
    m
}

/// Whether the names are strictly increasing (so each occurs once).
pub open spec fn strictly_sorted(s: Seq<Seq<char>>) -> bool {
    forall|i: int, j: int| 0 <= i < j < s.len() ==> seq_lt(#[trigger] s[i], #[trigger] s[j])
}

/// Whether `s` lists the set `set` in increasing order.
pub open spec fn lists(s: Seq<Seq<char>>, set: Set<Seq<char>>) -> bool {
    &&& strictly_sorted(s)
    &&& forall|q: Seq<char>| #[trigger] s.contains(q) == set.contains(q)
}

/// The keys of the entries `s` whose membership in `other` is `want`, in
/// order.
pub open spec fn select_keys(s: Seq<(Seq<char>, usize)>, other: Set<Seq<char>>, want: bool) -> Seq<Seq<char>>
    decreases s.len(),
{
    if s.len() == 0 {
        Seq::empty()
    } else {
        let rest = select_keys(s.drop_last(), other, want);
        if other.contains(s.last().0) == want {
            rest.push(s.last().0)
        } else {
            rest
        }
    }
}

proof fn lemma_select_keys(s: Seq<(Seq<char>, usize)>, other: Set<Seq<char>>, want: bool)
    requires
        sorted_keys(s),
    ensures
        strictly_sorted(select_keys(s, other, want)),
        forall|q: Seq<char>| #[trigger] select_keys(s, other, want).contains(q) == (has_key(s, q) && other.contains(q) == want),
    decreases s.len(),
{
    if s.len() > 0 {
        let p = s.drop_last();
        let rest = select_keys(p, other, want);
        let last = s.last().0;
        lemma_select_keys(p, other, want);
        assert forall|q: Seq<char>| has_key(s, q) == (has_key(p, q) || q == last) by {
            if has_key(s, q) {
                let i = choose|i: int| 0 <= i < s.len() && #[trigger] s[i].0 == q;
                if i < s.len() - 1 {
                    assert(p[i].0 == q);
                }
            }
            if has_key(p, q) {
                let i = choose|i: int| 0 <= i < p.len() && #[trigger] p[i].0 == q;
                assert(s[i].0 == q);
            }
            if q == last {
                assert(s[s.len() - 1].0 == q);
            }
        }
        if other.contains(last) == want {
            let out = rest.push(last);
            assert forall|i: int, j: int| 0 <= i < j < out.len() implies seq_lt(#[trigger] out[i], #[trigger] out[j]) by {
                if j == out.len() - 1 {
                    assert(rest.contains(out[i]));
                    let k = choose|k: int| 0 <= k < p.len() && #[trigger] p[k].0 == out[i];
                    assert(s[k].0 == out[i]);
                } else {
                    assert(out[i] == rest[i] && out[j] == rest[j]);
                }
            }
            assert forall|q: Seq<char>| #[trigger] out.contains(q) == (has_key(s, q) && other.contains(q) == want) by {
                if out.contains(q) {
                    let k = choose|k: int| 0 <= k < out.len() && out[k] == q;
                    if k < rest.len() {
                        assert(rest[k] == q);
                        assert(rest.contains(q));
                    } else {
                        assert(q == last);
                    }
                }
                if has_key(s, q) && other.contains(q) == want {
                    if q == last {
                        assert(out[out.len() - 1] == q);
                    } else {
                        assert(rest.contains(q));
                        let k = choose|k: int| 0 <= k < rest.len() && rest[k] == q;
                        assert(out[k] == q);
                    }
                }
            }
        } else {
            assert forall|q: Seq<char>| #[trigger] rest.contains(q) == (has_key(s, q) && other.contains(q) == want) by {
                if q == last && has_key(p, q) {
                    let k = choose|k: int| 0 <= k < p.len() && #[trigger] p[k].0 == q;
                    assert(s[k].0 == q);
                    crate::text::lemma_seq_lt_irreflexive(q);
                }
            }
        }
    }
}

/// The keys of `m` whose presence in `other` is `want`, in key order.
fn keys_where(m: &StrMap<usize>, other: &StrMap<usize>, want: bool) -> (r: Vec<String>)
    ensures
        lists(
            r@.map_values(|s: String| s@),
            Set::new(|q: Seq<char>| m.spec_has(q) && other.spec_has(q) == want),
        ),
{
    let n = m.len();
    let ghost os = Set::new(|q: Seq<char>| other.spec_has(q));
    let mut out: Vec<String> = Vec::new();
    let mut i: usize = 0;
    while i < n
        invariant
            n == m@.len(),
            sorted_keys(m@),
            os == Set::new(|q: Seq<char>| other.spec_has(q)),
            i <= n,
            out@.map_values(|s: String| s@) == select_keys(m@.take(i as int), os, want),
        decreases n - i,
    {
        let k = m.key_at(i);
        proof {
            assert(m@.take(i + 1).drop_last() =~= m@.take(i as int));
            assert(m@.take(i + 1).last().0 == k@);
        }
        if other.contains_key(k.as_str()) == want {
            let ghost before = out@;
            out.push(k.clone());
            proof {
                assert(out@.map_values(|s: String| s@) =~= before.map_values(|s: String| s@).push(k@));
            }
        }
        i = i + 1;
    }
    proof {
        assert(m@.take(n as int) =~= m@);
        lemma_select_keys(m@, os, want);
        let sel = select_keys(m@, os, want);
        assert forall|q: Seq<char>| #[trigger] sel.contains(q) == Set::new(|q: Seq<char>| m.spec_has(q) && other.spec_has(q) == want).contains(q) by {}
    }
    out
}

fn bytes_eq(a: &Vec<u8>, b: &Vec<u8>) -> (r: bool)
    ensures
        r == (a@ == b@),
{
    if a.len() != b.len() {
        return false;
    }
    let mut i: usize = 0;
    while i < a.len()
        invariant
            a@.len() == b@.len(),
            i <= a@.len(),
            forall|j: int| 0 <= j < i ==> a@[j] == b@[j],
        decreases a@.len() - i,
    {
        if a[i] != b[i] {
            return false;
        }
        i = i + 1;
    }
    assert(a@ =~= b@);
    true
}

/// The chunk of the report for a file whose contents differ.
pub open spec fn mismatch_chunk(name: Seq<char>, actual: Seq<u8>, expected: Seq<u8>) -> Seq<char> {
    "~ "@ + name + ":\n"@ + unified_diff_text(utf8_lossy(expected), utf8_lossy(actual), name)
}

/// Walks the common files in order: the first read failure (the actual
/// file before the expected one) as `(path, reason)`, or the chunks of
/// the files whose bytes differ.
pub open spec fn scan_common(
    common: Seq<Seq<char>>,
    actual: Map<Seq<char>, Result<Seq<u8>, (IoKind, Seq<char>)>>,
    expected: Map<Seq<char>, Result<Seq<u8>, (IoKind, Seq<char>)>>,
    actual_dir: Seq<char>,
    expected_dir: Seq<char>,
) -> Result<Seq<Seq<char>>, (Seq<char>, (IoKind, Seq<char>))>
    decreases common.len(),
{
    if common.len() == 0 {
        Ok(Seq::empty())
    } else {
        match scan_common(common.drop_last(), actual, expected, actual_dir, expected_dir) {
            Err(x) => Err(x),
            Ok(chunks) => {
                let n = common.last();
                match actual[n] {
                    Err(e) => Err((path_join(actual_dir, n), e)),
                    Ok(ab) => match expected[n] {
                        Err(e) => Err((path_join(expected_dir, n), e)),
                        Ok(eb) => if ab == eb {
                            Ok(chunks)
                        } else {
                            Ok(chunks.push(mismatch_chunk(n, ab, eb)))
                        },
                    },
                }
            },
        }
    }
}

/// What comparing the listed `.tf` files gives, once the three name lists
/// are fixed: a read failure of a common file is an I/O error; otherwise
/// the missing names, the extra names and the mismatch chunks, in that
/// order, make the diff, and the comparison passes when there are none.
pub open spec fn comparison_outcome(
    r: Result<ComparisonResult, EvalError>,
    actual_dir: Seq<char>,
    expected_dir: Seq<char>,
    actual: Map<Seq<char>, Result<Seq<u8>, (IoKind, Seq<char>)>>,
    expected: Map<Seq<char>, Result<Seq<u8>, (IoKind, Seq<char>)>>,
    missing: Seq<Seq<char>>,
    extra: Seq<Seq<char>>,
    common: Seq<Seq<char>>,
) -> bool {
    match scan_common(common, actual, expected, actual_dir, expected_dir) {
        Err((p, e)) => r matches Err(EvalError::Io { path, kind, reason }) && path@ == p && (kind, reason@) == e,
        Ok(chunks) => {
            let all = missing.map_values(|n: Seq<char>| "- missing from actual: "@ + n) + extra.map_values(
                |n: Seq<char>| "+ unexpected in actual: "@ + n,
            ) + chunks;
            r matches Ok(c) && c.passed == (all.len() == 0) && if all.len() == 0 {
                c.diff is None
            } else {
                c.diff matches Some(d) && d@ == join_with(all, "\n\n"@)
            }
        },
    }
}

/// What a listing failure of `dir` gives: the I/O error, if the listing
/// failed.
pub open spec fn listing_error(l: DirListing, dir: Seq<char>) -> Option<(Seq<char>, (IoKind, Seq<char>))> {
    match l {
        DirListing::NotADirectory => Some((dir, (IoKind::NotFound, "directory not found"@))),
        DirListing::Unreadable(e) => Some((dir, failure_view(e))),
        DirListing::Entries(_) => None,
    }
}

fn listing_failure(l: &DirListing, dir: &str) -> (r: Option<EvalError>)
    ensures
        match listing_error(*l, dir@) {
            None => r is None,
            Some((p, e)) => r matches Some(EvalError::Io { path, kind, reason }) && path@ == p && (kind, reason@) == e,
        },
{
    match l {
        DirListing::NotADirectory => Some(EvalError::Io { path: dir.to_owned(), kind: IoKind::NotFound, reason: "directory not found".to_owned() }),
        DirListing::Unreadable(e) => Some(EvalError::Io { path: dir.to_owned(), kind: e.kind, reason: e.message.clone() }),
        DirListing::Entries(_) => None,
    }
}

/// Compares the `.tf` files (regular files named `*.tf`) of two listed
/// directories by name and by content. A listing failure (the actual
/// directory first) and a read failure of a file present in both are
/// I/O errors. Otherwise the diff names each expected file missing from
/// the actual directory, then each unexpected one, then gives the unified
/// diff of each common file whose bytes differ (names in increasing
/// order each time); the comparison passes exactly when there is nothing
/// to report.
pub fn compare_directories(actual_dir: &str, actual: &DirListing, expected_dir: &str, expected: &DirListing) -> (r: Result<ComparisonResult, EvalError>)
    ensures
        listing_error(*actual, actual_dir@) matches Some((p, e)) ==> r matches Err(EvalError::Io { path, kind, reason })
            && path@ == p && (kind, reason@) == e,
        listing_error(*actual, actual_dir@) is None ==> (listing_error(*expected, expected_dir@) matches Some((p, e))
            ==> r matches Err(EvalError::Io { path, kind, reason }) && path@ == p && (kind, reason@) == e),
        actual matches DirListing::Entries(a_es) ==> expected matches DirListing::Entries(e_es) ==> {
            let a = tf_files(a_es@);
            let e = tf_files(e_es@);
            exists|missing: Seq<Seq<char>>, extra: Seq<Seq<char>>, common: Seq<Seq<char>>|
                #![trigger lists(missing, e.dom().difference(a.dom())), lists(extra, a.dom().difference(e.dom())), lists(common, e.dom().intersect(a.dom()))]
                lists(missing, e.dom().difference(a.dom())) && lists(extra, a.dom().difference(e.dom()))
                    && lists(common, e.dom().intersect(a.dom())) && comparison_outcome(
                    r,
                    actual_dir@,
                    expected_dir@,
                    a,
                    e,
                    missing,
                    extra,
                    common,
                )
        },
{
    if let Some(err) = listing_failure(actual, actual_dir) {
        return Err(err);
    }
    if let Some(err) = listing_failure(expected, expected_dir) {
        return Err(err);
    }
    let a_es = match actual {
        DirListing::Entries(es) => es,
        _ => { return Err(EvalError::Io { path: owned_str(actual_dir), kind: IoKind::NotFound, reason: owned_str("directory not found") }); },
    };
    let e_es = match expected {
        DirListing::Entries(es) => es,
        _ => { return Err(EvalError::Io { path: owned_str(expected_dir), kind: IoKind::NotFound, reason: owned_str("directory not found") }); },
    };
    let ma = index_tf_files(a_es);
    let me = index_tf_files(e_es);
    let ghost a = tf_files(a_es@);
    let ghost e = tf_files(e_es@);
    let missing = keys_where(&me, &ma, false);
    let extra = keys_where(&ma, &me, false);
    let common = keys_where(&me, &ma, true);
    let ghost mv = missing@.map_values(|s: String| s@);
    let ghost xv = extra@.map_values(|s: String| s@);
    let ghost cv = common@.map_values(|s: String| s@);
    proof {
        assert(Set::new(|q: Seq<char>| me.spec_has(q) && ma.spec_has(q) == false) =~= e.dom().difference(a.dom()));
        assert(Set::new(|q: Seq<char>| ma.spec_has(q) && me.spec_has(q) == false) =~= a.dom().difference(e.dom()));
        assert(Set::new(|q: Seq<char>| me.spec_has(q) && ma.spec_has(q) == true) =~= e.dom().intersect(a.dom()));
    }
    let mut chunks: Vec<String> = Vec::new();
    let mut j: usize = 0;
    while j < missing.len()
        invariant
            mv == missing@.map_values(|s: String| s@),
            j <= missing@.len(),
            chunks@.map_values(|s: String| s@) == mv.take(j as int).map_values(|n: Seq<char>| "- missing from actual: "@ + n),
        decreases missing@.len() - j,
    {
        let ghost before = chunks@;
        let c = concat2("- missing from actual: ", missing[j].as_str());
        chunks.push(c);
        proof {
            assert(mv.take(j + 1) =~= mv.take(j as int).push(mv[j as int]));
            assert(chunks@.map_values(|s: String| s@) =~= before.map_values(|s: String| s@).push(c@));
            assert(mv.take(j + 1).map_values(|n: Seq<char>| "- missing from actual: "@ + n) =~= mv.take(j as int).map_values(
                |n: Seq<char>| "- missing from actual: "@ + n,
            ).push("- missing from actual: "@ + mv[j as int]));
        }
        j = j + 1;
    }
    proof {
        assert(mv.take(missing@.len() as int) =~= mv);
    }
    let ghost head = chunks@.map_values(|s: String| s@);
    let mut j: usize = 0;
    while j < extra.len()
        invariant
            xv == extra@.map_values(|s: String| s@),
            j <= extra@.len(),
            chunks@.map_values(|s: String| s@) == head + xv.take(j as int).map_values(|n: Seq<char>| "+ unexpected in actual: "@ + n),
        decreases extra@.len() - j,
    {
        let ghost before = chunks@;
        let c = concat2("+ unexpected in actual: ", extra[j].as_str());
        chunks.push(c);
        proof {
            assert(xv.take(j + 1) =~= xv.take(j as int).push(xv[j as int]));
            assert(chunks@.map_values(|s: String| s@) =~= before.map_values(|s: String| s@).push(c@));
            assert(xv.take(j + 1).map_values(|n: Seq<char>| "+ unexpected in actual: "@ + n) =~= xv.take(j as int).map_values(
                |n: Seq<char>| "+ unexpected in actual: "@ + n,
            ).push("+ unexpected in actual: "@ + xv[j as int]));
        }
        j = j + 1;
    }
    proof {
        assert(xv.take(extra@.len() as int) =~= xv);
    }
    let ghost head2 = chunks@.map_values(|s: String| s@);
    proof {
        assert(lists(cv, e.dom().intersect(a.dom())));
        assert forall|k: int| 0 <= k < common@.len() implies a.dom().contains(#[trigger] common@[k]@) && e.dom().contains(
            common@[k]@,
        ) by {
            assert(cv[k] == common@[k]@);
            assert(cv.contains(cv[k]));
        }
    }
    let scanned = scan_files(&common, &ma, &me, a_es, e_es, actual_dir, expected_dir);
    proof {
        assert(lists(mv, e.dom().difference(a.dom())));
        assert(lists(xv, a.dom().difference(e.dom())));
        assert(lists(cv, e.dom().intersect(a.dom())));
    }
    let found = match scanned {
        Err(err) => {
            proof {
                assert(comparison_outcome(Err(err), actual_dir@, expected_dir@, a, e, mv, xv, cv));
            }
            return Err(err);
        },
        Ok(found) => found,
    };
    let ghost cs = found@.map_values(|s: String| s@);
    let mut j: usize = 0;
    while j < found.len()
        invariant
            cs == found@.map_values(|s: String| s@),
            j <= found@.len(),
            chunks@.map_values(|s: String| s@) == head2 + cs.take(j as int),
        decreases found@.len() - j,
    {
        let ghost before = chunks@;
        let c = found[j].clone();
        chunks.push(c);
        proof {
            assert(chunks@.map_values(|s: String| s@) =~= before.map_values(|s: String| s@).push(c@));
            assert(cs.take(j + 1) =~= cs.take(j as int).push(cs[j as int]));
            assert(chunks@.map_values(|s: String| s@) =~= head2 + cs.take(j + 1));
        }
        j = j + 1;
    }
    proof {
        assert(cs.take(found@.len() as int) =~= cs);
    }
    let ghost all = chunks@.map_values(|s: String| s@);
    let r = if chunks.len() == 0 {
        ComparisonResult { passed: true, diff: None }
    } else {
        ComparisonResult { passed: false, diff: Some(join_strings(&chunks, "\n\n")) }
    };
    proof {
        assert(all =~= mv.map_values(|n: Seq<char>| "- missing from actual: "@ + n) + xv.map_values(
            |n: Seq<char>| "+ unexpected in actual: "@ + n,
        ) + cs);
        assert(comparison_outcome(Ok(r), actual_dir@, expected_dir@, a, e, mv, xv, cv));
    }
    Ok(r)
}

proof fn lemma_scan_err_prefix(
    common: Seq<Seq<char>>,
    i: int,
    actual: Map<Seq<char>, Result<Seq<u8>, (IoKind, Seq<char>)>>,
    expected: Map<Seq<char>, Result<Seq<u8>, (IoKind, Seq<char>)>>,
    actual_dir: Seq<char>,
    expected_dir: Seq<char>,
)
    requires
        0 <= i <= common.len(),
        scan_common(common.take(i), actual, expected, actual_dir, expected_dir) is Err,
    ensures
        scan_common(common, actual, expected, actual_dir, expected_dir) == scan_common(
            common.take(i),
            actual,
            expected,
            actual_dir,
            expected_dir,
        ),
    decreases common.len() - i,
{
    if i < common.len() {
        assert(common.take(i + 1).drop_last() =~= common.take(i));
        lemma_scan_err_prefix(common, i + 1, actual, expected, actual_dir, expected_dir);
    } else {
        assert(common.take(i) =~= common);
    }
}

/// Reads through the common files in order (see `scan_common`).
fn scan_files(
    common: &Vec<String>,
    ma: &StrMap<usize>,
    me: &StrMap<usize>,
    a_es: &Vec<DirFile>,
    e_es: &Vec<DirFile>,
    actual_dir: &str,
    expected_dir: &str,
) -> (r: Result<Vec<String>, EvalError>)
    requires
        indexes(*ma, a_es@),
        indexes(*me, e_es@),
        forall|k: int| 0 <= k < common@.len() ==> tf_files(a_es@).dom().contains(#[trigger] common@[k]@)
            && tf_files(e_es@).dom().contains(common@[k]@),
    ensures
        match scan_common(common@.map_values(|s: String| s@), tf_files(a_es@), tf_files(e_es@), actual_dir@, expected_dir@) {
            Ok(cs) => r matches Ok(v) && v@.map_values(|s: String| s@) == cs,
            Err((p, e)) => r matches Err(EvalError::Io { path, kind, reason }) && path@ == p && (kind, reason@) == e,
        },
{
    let ghost cv = common@.map_values(|s: String| s@);
    let ghost a = tf_files(a_es@);
    let ghost e = tf_files(e_es@);
    let mut chunks: Vec<String> = Vec::new();
    let mut j: usize = 0;
    while j < common.len()
        invariant
            cv == common@.map_values(|s: String| s@),
            a == tf_files(a_es@),
            e == tf_files(e_es@),
            indexes(*ma, a_es@),
            indexes(*me, e_es@),
            forall|k: int| 0 <= k < common@.len() ==> a.dom().contains(#[trigger] common@[k]@) && e.dom().contains(common@[k]@),
            j <= common@.len(),
            scan_common(cv.take(j as int), a, e, actual_dir@, expected_dir@) matches Ok(cs)
                && chunks@.map_values(|s: String| s@) == cs,
        decreases common@.len() - j,
    {
        let name = &common[j];
        proof {
            assert(cv.take(j + 1).drop_last() =~= cv.take(j as int));
            assert(cv.take(j + 1).last() == name@);
            assert(a.dom().contains(common@[j as int]@));
            assert(ma.spec_has(name@));
            assert(me.spec_has(name@));
            crate::strmap::lemma_has_get(*ma, name@);
            crate::strmap::lemma_has_get(*me, name@);
        }
        let ia = match ma.get(name.as_str()) {
            Some(i) => *i,
            None => { return Err(EvalError::Io { path: join_path(actual_dir, name.as_str()), kind: IoKind::NotFound, reason: owned_str("missing") }); },
        };
        let ie = match me.get(name.as_str()) {
            Some(i) => *i,
            None => { return Err(EvalError::Io { path: join_path(expected_dir, name.as_str()), kind: IoKind::NotFound, reason: owned_str("missing") }); },
        };
        let ab = match &a_es[ia].content {
            Ok(b) => b,
            Err(why) => {
                proof {
                    lemma_scan_err_prefix(cv, j + 1, a, e, actual_dir@, expected_dir@);
                }
                return Err(EvalError::Io { path: join_path(actual_dir, name.as_str()), kind: why.kind, reason: why.message.clone() });
            },
        };
        let eb = match &e_es[ie].content {
            Ok(b) => b,
            Err(why) => {
                proof {
                    lemma_scan_err_prefix(cv, j + 1, a, e, actual_dir@, expected_dir@);
                }
                return Err(EvalError::Io { path: join_path(expected_dir, name.as_str()), kind: why.kind, reason: why.message.clone() });
            },
        };
        if !bytes_eq(ab, eb) {
            let at = lossy_text(ab);
            let et = lossy_text(eb);
            let d = unified_diff(et.as_str(), at.as_str(), name.as_str());
            let mut chunk = concat3("~ ", name.as_str(), ":\n");
            chunk.append(d.as_str());
            let ghost before = chunks@.map_values(|s: String| s@);
            chunks.push(chunk);
            proof {
                assert(chunks@.map_values(|s: String| s@) =~= before.push(mismatch_chunk(name@, ab@, eb@)));
            }
        }
        j = j + 1;
    }
    proof {
        assert(cv.take(common@.len() as int) =~= cv);
    }
    Ok(chunks)
}

/// A listed file's name as text, `<no_name>` when it has none (or none
/// that is valid Unicode).
pub fn filename_string(name: Option<&str>) -> (r: String)
    ensures
        r@ == match name {
            Some(n) => n@,
            None => "<no_name>"@,
        },
{
    match name {
        Some(n) => n.to_owned(),
        None => "<no_name>".to_owned(),
    }
}

fn owned_str(s: &str) -> (r: String)
    ensures
        r@ == s@,
{
    s.to_owned()
}

/// Two directories with the same `.tf` files, all read, compare equal:
/// nothing is missing or unexpected, no common file gives a chunk, and
/// the comparison passes with no diff.
pub proof fn law_identical_directories_pass(
    files: Map<Seq<char>, Result<Seq<u8>, (IoKind, Seq<char>)>>,
    missing: Seq<Seq<char>>,
    extra: Seq<Seq<char>>,
    common: Seq<Seq<char>>,
    actual_dir: Seq<char>,
    expected_dir: Seq<char>,
    r: Result<ComparisonResult, EvalError>,
)
    requires
        forall|q: Seq<char>| #[trigger] files.dom().contains(q) ==> files[q] is Ok,
        lists(missing, files.dom().difference(files.dom())),
        lists(extra, files.dom().difference(files.dom())),
        lists(common, files.dom().intersect(files.dom())),
        comparison_outcome(r, actual_dir, expected_dir, files, files, missing, extra, common),
    ensures
        r matches Ok(c) && c.passed && c.diff is None,
{
    assert(missing.len() == 0) by {
        if missing.len() > 0 {
            assert(missing.contains(missing[0]));
        }
    }
    assert(extra.len() == 0) by {
        if extra.len() > 0 {
            assert(extra.contains(extra[0]));
        }
    }
    lemma_scan_same(common, files, actual_dir, expected_dir);
    assert(missing.map_values(|n: Seq<char>| "- missing from actual: "@ + n) + extra.map_values(
        |n: Seq<char>| "+ unexpected in actual: "@ + n,
    ) + Seq::<Seq<char>>::empty() =~= Seq::<Seq<char>>::empty());
}

proof fn lemma_scan_finds_mismatch(
    common: Seq<Seq<char>>,
    actual: Map<Seq<char>, Result<Seq<u8>, (IoKind, Seq<char>)>>,
    expected: Map<Seq<char>, Result<Seq<u8>, (IoKind, Seq<char>)>>,
    actual_dir: Seq<char>,
    expected_dir: Seq<char>,
    n: Seq<char>,
    ab: Seq<u8>,
    eb: Seq<u8>,
)
    requires
        common.contains(n),
        actual[n] == Ok::<Seq<u8>, (IoKind, Seq<char>)>(ab),
        expected[n] == Ok::<Seq<u8>, (IoKind, Seq<char>)>(eb),
        ab != eb,
        scan_common(common, actual, expected, actual_dir, expected_dir) is Ok,
    ensures
        scan_common(common, actual, expected, actual_dir, expected_dir)->Ok_0.contains(mismatch_chunk(n, ab, eb)),
    decreases common.len(),
{
    let p = common.drop_last();
    let whole = scan_common(common, actual, expected, actual_dir, expected_dir);
    let prev = scan_common(p, actual, expected, actual_dir, expected_dir);
    assert(prev is Ok);
    let chunks = prev->Ok_0;
    if common.last() == n {
        assert(whole->Ok_0 == chunks.push(mismatch_chunk(n, ab, eb)));
        assert(whole->Ok_0[chunks.len() as int] == mismatch_chunk(n, ab, eb));
    } else {
        let i = choose|i: int| 0 <= i < common.len() && common[i] == n;
        assert(i < common.len() - 1);
        assert(p[i] == n);
        lemma_scan_finds_mismatch(p, actual, expected, actual_dir, expected_dir, n, ab, eb);
        let j = choose|j: int| 0 <= j < chunks.len() && chunks[j] == mismatch_chunk(n, ab, eb);
        let m = common.last();
        if actual[m] is Ok && expected[m] is Ok && actual[m]->Ok_0 != expected[m]->Ok_0 {
            assert(whole->Ok_0 == chunks.push(mismatch_chunk(m, actual[m]->Ok_0, expected[m]->Ok_0)));
            assert(whole->Ok_0[j] == chunks[j]);
        } else {
            assert(whole->Ok_0 == chunks);
        }
    }
}

/// A `.tf` file present in both directories whose actual bytes differ
/// from its expected bytes (in any byte, whatever the lengths) fails the
/// comparison: unless reading some file fails, the result does not pass
/// and its diff holds the file's `~ name` chunk.
pub proof fn law_differing_file_fails(
    actual: Map<Seq<char>, Result<Seq<u8>, (IoKind, Seq<char>)>>,
    expected: Map<Seq<char>, Result<Seq<u8>, (IoKind, Seq<char>)>>,
    missing: Seq<Seq<char>>,
    extra: Seq<Seq<char>>,
    common: Seq<Seq<char>>,
    actual_dir: Seq<char>,
    expected_dir: Seq<char>,
    r: Result<ComparisonResult, EvalError>,
    n: Seq<char>,
    ab: Seq<u8>,
    eb: Seq<u8>,
)
    requires
        lists(missing, expected.dom().difference(actual.dom())),
        lists(extra, actual.dom().difference(expected.dom())),
        lists(common, expected.dom().intersect(actual.dom())),
        comparison_outcome(r, actual_dir, expected_dir, actual, expected, missing, extra, common),
        actual.dom().contains(n),
        expected.dom().contains(n),
        actual[n] == Ok::<Seq<u8>, (IoKind, Seq<char>)>(ab),
        expected[n] == Ok::<Seq<u8>, (IoKind, Seq<char>)>(eb),
        ab != eb,
    ensures
        r is Err || (r matches Ok(c) && !c.passed && c.diff is Some),
        scan_common(common, actual, expected, actual_dir, expected_dir) matches Ok(chunks) ==> chunks.contains(
            mismatch_chunk(n, ab, eb),
        ),
{
    assert(common.contains(n));
    if scan_common(common, actual, expected, actual_dir, expected_dir) is Ok {
        lemma_scan_finds_mismatch(common, actual, expected, actual_dir, expected_dir, n, ab, eb);
        let chunks = scan_common(common, actual, expected, actual_dir, expected_dir)->Ok_0;
        let all = missing.map_values(|x: Seq<char>| "- missing from actual: "@ + x) + extra.map_values(
            |x: Seq<char>| "+ unexpected in actual: "@ + x,
        ) + chunks;
        assert(all.len() > 0);
    }
}

proof fn lemma_scan_same(
    common: Seq<Seq<char>>,
    files: Map<Seq<char>, Result<Seq<u8>, (IoKind, Seq<char>)>>,
    actual_dir: Seq<char>,
    expected_dir: Seq<char>,
)
    requires
        forall|q: Seq<char>| #[trigger] files.dom().contains(q) ==> files[q] is Ok,
        forall|q: Seq<char>| #[trigger] common.contains(q) ==> files.dom().contains(q),
    ensures
        scan_common(common, files, files, actual_dir, expected_dir) == Ok::<Seq<Seq<char>>, (Seq<char>, (IoKind, Seq<char>))>(
            Seq::empty(),
        ),
    decreases common.len(),
{
    if common.len() > 0 {
        let p = common.drop_last();
        assert forall|q: Seq<char>| #[trigger] p.contains(q) implies files.dom().contains(q) by {
            let i = choose|i: int| 0 <= i < p.len() && p[i] == q;
            assert(common[i] == q);
            assert(common.contains(q));
        }
        lemma_scan_same(p, files, actual_dir, expected_dir);
        assert(common.contains(common.last()));
    }
}

} // verus!
