//! Golden fixtures: what a fixture directory must hold, how a suite's
//! fixtures are found, and which cached schemas a fixture needs.
use vstd::prelude::*;
use crate::mapper::MappingPlan;
use crate::text::{concat2, concat3, join_path, path_join, seq_starts_with, starts_with};
use crate::scanner::str_views;
use crate::prompt::{sort_strings, sorted_strings};
use crate::eval::errors::{EvalError, IoFailure, IoKind};

verus! {

/// A schema that a fixture needs in the suite's schema cache.
pub struct RequiredSchema {
    pub provider: String,
    pub version: String,
}

/// One fixture's `manifest.toml`.
pub struct GoldenManifest {
    pub name: String,
    pub description: String,
    pub source_provider: String,
    pub target_provider: String,
    pub token_cost_ceiling_micros: u64,
    /// The constitution articles this golden validates.
    pub articles: Vec<u8>,
    pub required_schemas: Vec<RequiredSchema>,
}

/// A loaded fixture: its paths, its manifest and its mapping plan.
pub struct GoldenMigration {
    pub root: String,
    pub manifest: GoldenManifest,
    pub source_tf: String,
    pub mapping_plan: MappingPlan,
    pub expected_target_dir: String,
}

/// What became of one of a fixture's documents.
pub enum FileRead<T> {
    /// No such file.
    Absent,
    /// The file exists but could not be read.
    ReadFailed(IoFailure),
    /// The file was read but did not parse.
    ParseFailed(String),
    /// The parsed document.
    Parsed(T),
}

/// What was found at a fixture's root.
pub struct GoldenProbe {
    pub root_is_dir: bool,
    pub manifest: FileRead<GoldenManifest>,
    pub source_tf_is_file: bool,
    pub mapping_plan: FileRead<MappingPlan>,
    pub expected_is_dir: bool,
}

/// The error that a fixture's probe gives, checking in order: the root is
/// a directory; `manifest.toml` exists, reads and parses; `source.tf`
/// exists; `mapping_plan.json` exists, reads and parses; `expected/` is a
/// directory. `None` when every check passes.
///
/// Each error is given as its tag (see `is_golden_error`), its path, its
/// detail and, for an I/O error, the failure's kind.
pub open spec fn golden_error(root: Seq<char>, p: GoldenProbe) -> Option<(char, Seq<char>, Seq<char>, IoKind)> {
    let manifest_path = path_join(root, "manifest.toml"@);
    let plan_path = path_join(root, "mapping_plan.json"@);
    if !p.root_is_dir {
        Some(('I', root, "golden root is not a directory"@, IoKind::NotFound))
    } else {
        match p.manifest {
            FileRead::Absent => Some(('M', root, "manifest.toml"@, IoKind::Other)),
            FileRead::ReadFailed(e) => Some(('I', manifest_path, e.message@, e.kind)),
            FileRead::ParseFailed(e) => Some(('T', manifest_path, e@, IoKind::Other)),
            FileRead::Parsed(_) => if !p.source_tf_is_file {
                Some(('M', root, "source.tf"@, IoKind::Other))
            } else {
                match p.mapping_plan {
                    FileRead::Absent => Some(('M', root, "mapping_plan.json"@, IoKind::Other)),
                    FileRead::ReadFailed(e) => Some(('I', plan_path, e.message@, e.kind)),
                    FileRead::ParseFailed(e) => Some(('J', plan_path, e@, IoKind::Other)),
                    FileRead::Parsed(_) => if !p.expected_is_dir {
                        Some(('M', root, "expected/"@, IoKind::Other))
                    } else {
                        None
                    },
                }
            },
        }
    }
}

/// Whether `e` is the error that `golden_error` describes: `'I'` an I/O
/// error, `'M'` a missing file, `'T'` a manifest parse failure, `'J'` a
/// mapping plan parse failure, each with its path and detail (and an I/O
/// error with its kind `io`).
pub open spec fn is_golden_error(e: EvalError, tag: char, path: Seq<char>, detail: Seq<char>, io: IoKind) -> bool {
    if tag == 'I' {
        e matches EvalError::Io { path: p, kind, reason } && p@ == path && kind == io && reason@ == detail
    } else if tag == 'M' {
        e matches EvalError::MissingFixtureFile { path: p, missing } && p@ == path && missing@ == detail
    } else if tag == 'T' {
        e matches EvalError::ManifestParse { path: p, reason } && p@ == path && reason@ == detail
    } else {
        e matches EvalError::MappingPlanParse { path: p, reason } && p@ == path && reason@ == detail
    }
}

/// Loads a fixture from what was found at its root: the first failed
/// check (see `golden_error`) is the error; otherwise the fixture with
/// its manifest, its plan and the paths of `source.tf` and `expected`.
pub fn load_golden(root: &str, probe: GoldenProbe) -> (r: Result<GoldenMigration, EvalError>)
    ensures
        match golden_error(root@, probe) {
            Some((tag, path, detail, io)) => r matches Err(e) && is_golden_error(e, tag, path, detail, io),
            None => r matches Ok(g) && g.root@ == root@ && probe.manifest == FileRead::Parsed(g.manifest)
                && probe.mapping_plan == FileRead::Parsed(g.mapping_plan) && g.source_tf@ == path_join(
                root@,
                "source.tf"@,
            ) && g.expected_target_dir@ == path_join(root@, "expected"@),
        },
{
    if !probe.root_is_dir {
        return Err(
            EvalError::Io { path: root.to_owned(), kind: IoKind::NotFound, reason: "golden root is not a directory".to_owned() },
        );
    }
    let manifest_path = join_path(root, "manifest.toml");
    let manifest = match probe.manifest {
        FileRead::Absent => {
            return Err(EvalError::MissingFixtureFile { path: root.to_owned(), missing: "manifest.toml".to_owned() });
        },
        FileRead::ReadFailed(e) => {
            return Err(EvalError::Io { path: manifest_path, kind: e.kind, reason: e.message });
        },
        FileRead::ParseFailed(e) => {
            return Err(EvalError::ManifestParse { path: manifest_path, reason: e });
        },
        FileRead::Parsed(m) => m,
    };
    if !probe.source_tf_is_file {
        return Err(EvalError::MissingFixtureFile { path: root.to_owned(), missing: "source.tf".to_owned() });
    }
    let plan_path = join_path(root, "mapping_plan.json");
    let mapping_plan = match probe.mapping_plan {
        FileRead::Absent => {
            return Err(
                EvalError::MissingFixtureFile { path: root.to_owned(), missing: "mapping_plan.json".to_owned() },
            );
        },
        FileRead::ReadFailed(e) => {
            return Err(EvalError::Io { path: plan_path, kind: e.kind, reason: e.message });
        },
        FileRead::ParseFailed(e) => {
            return Err(EvalError::MappingPlanParse { path: plan_path, reason: e });
        },
        FileRead::Parsed(p) => p,
    };
    if !probe.expected_is_dir {
        return Err(EvalError::MissingFixtureFile { path: root.to_owned(), missing: "expected/".to_owned() });
    }
    Ok(
        GoldenMigration {
            root: root.to_owned(),
            manifest,
            source_tf: join_path(root, "source.tf"),
            mapping_plan,
            expected_target_dir: join_path(root, "expected"),
        },
    )
}

/// One entry of a suite root: its name, whether it is a directory, and
/// whether it holds a `manifest.toml` file.
pub struct SuiteEntry {
    pub name: String,
    pub is_dir: bool,
    pub has_manifest: bool,
}

/// A suite root as listed.
pub enum SuiteListing {
    NotADirectory,
    Unreadable(IoFailure),
    Entries(Vec<SuiteEntry>),
}

/// Whether an entry is a fixture: a directory whose name does not start
/// with '.', holding a manifest.
pub open spec fn is_fixture(e: SuiteEntry) -> bool {
    e.is_dir && !seq_starts_with(e.name@, "."@) && e.has_manifest
}

/// The fixture names of a listing, in listing order.
pub open spec fn fixture_names(es: Seq<SuiteEntry>) -> Seq<Seq<char>>
    decreases es.len(),
{
    if es.len() == 0 {
        Seq::empty()
    } else {
        let rest = fixture_names(es.drop_last());
        if is_fixture(es.last()) {
            rest.push(es.last().name@)
        } else {
            rest
        }
    }
}

/// Whether `out` is `ins` sorted (equal names keep their order), through
/// the positions `order`.
pub open spec fn sorted_names(ins: Seq<Seq<char>>, out: Seq<Seq<char>>, order: Seq<usize>) -> bool {
    &&& order.len() == ins.len()
    &&& out.len() == ins.len()
    &&& forall|k: int| 0 <= k < ins.len() ==> #[trigger] order[k] < ins.len() && out[k] == ins[order[k] as int]
    &&& forall|k: int, l: int| 0 <= k < l < ins.len() ==> #[trigger] order[k] != #[trigger] order[l]
    &&& forall|k: int, l: int| 0 <= k < l < ins.len() ==> crate::text::seq_lt(ins[#[trigger] order[k] as int], ins[#[trigger] order[l] as int])
        || (ins[order[k] as int] == ins[order[l] as int] && order[k] < order[l])
}

/// The fixture directories of a suite, sorted by name: the suite root
/// must be a readable directory (`InvalidSuiteRoot`, or an I/O error).
pub fn fixture_dirs(suite_root: &str, listing: &SuiteListing) -> (r: Result<Vec<String>, EvalError>)
    ensures
        *listing is NotADirectory ==> (r matches Err(EvalError::InvalidSuiteRoot(p)) && p@ == suite_root@),
        listing matches SuiteListing::Unreadable(e) ==> r matches Err(EvalError::Io { path, kind, reason }) && path@
            == suite_root@ && kind == e.kind && reason@ == e.message@,
        listing matches SuiteListing::Entries(es) ==> r matches Ok(dirs) && exists|names: Seq<Seq<char>>, order: Seq<usize>|
            #[trigger] sorted_names(fixture_names(es@), names, order) && dirs@.len() == names.len() && forall|k: int|
                0 <= k < names.len() ==> (#[trigger] dirs@[k])@ == path_join(suite_root@, names[k]),
{
    let es = match listing {
        SuiteListing::NotADirectory => {
            return Err(EvalError::InvalidSuiteRoot(suite_root.to_owned()));
        },
        SuiteListing::Unreadable(e) => {
            return Err(EvalError::Io { path: suite_root.to_owned(), kind: e.kind, reason: e.message.clone() });
        },
        SuiteListing::Entries(es) => es,
    };
    let mut names: Vec<String> = Vec::new();
    let mut i: usize = 0;
    while i < es.len()
        invariant
            i <= es@.len(),
            str_views(names@) == fixture_names(es@.take(i as int)),
        decreases es@.len() - i,
    {
        let e = &es[i];
        proof {
            assert(es@.take(i + 1).drop_last() =~= es@.take(i as int));
            assert(es@.take(i + 1).last() == *e);
        }
        if e.is_dir && !starts_with(e.name.as_str(), ".") && e.has_manifest {
            let ghost before = names@;
            names.push(e.name.clone());
            proof {
                assert(str_views(names@) =~= str_views(before).push(e.name@));
            }
        }
        i = i + 1;
    }
    proof {
        assert(es@.take(es@.len() as int) =~= es@);
    }
    let sorted = sort_strings(&names);
    let ghost order = choose|order: Seq<usize>| #[trigger] sorted_strings(names@, str_views(sorted@), order);
    let mut dirs: Vec<String> = Vec::new();
    let mut k: usize = 0;
    while k < sorted.len()
        invariant
            k <= sorted@.len(),
            dirs@.len() == k,
            forall|j: int| 0 <= j < k ==> (#[trigger] dirs@[j])@ == path_join(suite_root@, sorted@[j]@),
        decreases sorted@.len() - k,
    {
        dirs.push(join_path(suite_root, sorted[k].as_str()));
        k = k + 1;
    }
    proof {
        let ins = fixture_names(es@);
        assert(str_views(names@) == ins);
        assert(sorted_names(ins, str_views(sorted@), order)) by {
            assert forall|j: int| 0 <= j < ins.len() implies #[trigger] ins[j] == names@[j]@ by {
                assert(str_views(names@)[j] == names@[j]@);
            }
        }
        assert forall|j: int| 0 <= j < str_views(sorted@).len() implies (#[trigger] dirs@[j])@ == path_join(
            suite_root@,
            str_views(sorted@)[j],
        ) by {
            assert(str_views(sorted@)[j] == sorted@[j]@);
        }
    }
    Ok(dirs)
}

/// The id of a required schema: `<provider>@<version>`.
pub open spec fn schema_id_text(r: RequiredSchema) -> Seq<char> {
    r.provider@ + "@"@ + r.version@
}

/// The id of a required schema.
pub fn schema_id(req: &RequiredSchema) -> (r: String)
    ensures
        r@ == schema_id_text(*req),
{
    concat3(req.provider.as_str(), "@", req.version.as_str())
}

/// The file that holds a required schema in the schema cache:
/// `<provider>@<version>.json.zst`.
pub fn schema_file_name(req: &RequiredSchema) -> (r: String)
    ensures
        r@ == schema_id_text(*req) + ".json.zst"@,
{
    let id = schema_id(req);
    concat2(id.as_str(), ".json.zst")
}

/// Whether the `i`-th required schema was found in the cache.
pub open spec fn schema_present(present: Seq<bool>, i: int) -> bool {
    i < present.len() && present[i]
}

/// Checks a fixture's required schemas against what the schema cache
/// holds (`present[i]` for the `i`-th, absent when not given): the first
/// one missing, in manifest order, is a `MissingSchema` error naming the
/// fixture and the schema id.
pub fn check_required_schemas(fixture_root: &str, required: &Vec<RequiredSchema>, present: &Vec<bool>) -> (r: Result<(), EvalError>)
    ensures
        r is Ok <==> forall|i: int| 0 <= i < required@.len() ==> #[trigger] schema_present(present@, i),
        r matches Err(e) ==> exists|i: int|
            #![trigger schema_present(present@, i)]
            0 <= i < required@.len() && !schema_present(present@, i) && (forall|j: int| 0 <= j < i ==> #[trigger] schema_present(present@, j))
                && (e matches EvalError::MissingSchema { fixture, schema_id } && fixture@ == fixture_root@
                && schema_id@ == schema_id_text(required@[i])),
{
    let mut i: usize = 0;
    while i < required.len()
        invariant
            i <= required@.len(),
            forall|j: int| 0 <= j < i ==> #[trigger] schema_present(present@, j),
        decreases required@.len() - i,
    {
        let found = i < present.len() && present[i];
        if !found {
            assert(!schema_present(present@, i as int));
            return Err(EvalError::MissingSchema { fixture: fixture_root.to_owned(), schema_id: schema_id(&required[i]) });
        }
        i = i + 1;
    }
    Ok(())
}

} // verus!
