//! The evaluation harness's failure modes.
use vstd::prelude::*;
use crate::generator::GeneratorError;
use crate::text::concat2;

verus! {

/// The kind of an I/O failure, as std classifies it (`std::io::ErrorKind`);
/// a kind that std adds later than these is `Other`.
#[derive(Clone, Copy, Debug, PartialEq, Eq, Structural)]
pub enum IoKind {
    NotFound,
    PermissionDenied,
    ConnectionRefused,
    ConnectionReset,
    HostUnreachable,
    NetworkUnreachable,
    ConnectionAborted,
    NotConnected,
    AddrInUse,
    AddrNotAvailable,
    NetworkDown,
    BrokenPipe,
    AlreadyExists,
    WouldBlock,
    NotADirectory,
    IsADirectory,
    DirectoryNotEmpty,
    ReadOnlyFilesystem,
    StaleNetworkFileHandle,
    InvalidInput,
    InvalidData,
    TimedOut,
    WriteZero,
    StorageFull,
    NotSeekable,
    QuotaExceeded,
    FileTooLarge,
    ResourceBusy,
    ExecutableFileBusy,
    Deadlock,
    CrossesDevices,
    TooManyLinks,
    InvalidFilename,
    ArgumentListTooLong,
    Interrupted,
    Unsupported,
    UnexpectedEof,
    OutOfMemory,
    Other,
}

/// An I/O failure: its kind and its message.
pub struct IoFailure {
    pub kind: IoKind,
    pub message: String,
}

/// An I/O failure by its kind and the text of its message.
pub open spec fn failure_view(f: IoFailure) -> (IoKind, Seq<char>) {
    (f.kind, f.message@)
}

/// Everything that can stop an evaluation run. Paths are carried as
/// text; the underlying I/O or parse failure as its message.
pub enum EvalError {
    /// The suite root does not exist or is not a directory.
    InvalidSuiteRoot(String),
    /// A fixture lacks one of its required files.
    MissingFixtureFile { path: String, missing: String },
    /// `manifest.toml` exists but does not parse.
    ManifestParse { path: String, reason: String },
    /// A JSON document (the mapping plan, the baseline) does not parse.
    MappingPlanParse { path: String, reason: String },
    /// A filesystem operation failed, with the failure's kind.
    Io { path: String, kind: IoKind, reason: String },
    /// The Generator failed while running the named fixture.
    Generator { name: String, source: GeneratorError },
    /// A structural comparison problem (diagnostics only).
    Comparison { name: String, detail: String },
    /// A schema that the fixture requires is absent from the schema cache.
    MissingSchema { fixture: String, schema_id: String },
}

/// The text of an `EvalError`, as the harness reports it.
pub open spec fn eval_error_text(e: EvalError) -> Seq<char> {
    match e {
        EvalError::InvalidSuiteRoot(p) => "suite root '"@ + p@ + "' is not a directory"@,
        EvalError::MissingFixtureFile { path, missing } => "golden fixture at '"@ + path@
            + "' is missing required file: "@ + missing@,
        EvalError::ManifestParse { path, reason } => "manifest at '"@ + path@ + "': "@ + reason@,
        EvalError::MappingPlanParse { path, reason } => "mapping_plan at '"@ + path@ + "': "@ + reason@,
        EvalError::Io { path, reason, .. } => "filesystem I/O at "@ + path@ + ": "@ + reason@,
        EvalError::Generator { name, source } => "generator failed for fixture '"@ + name@ + "': "@
            + crate::generator::generator_error_text(source),
        EvalError::Comparison { name, detail } => "comparison error at fixture '"@ + name@ + "': "@
            + detail@,
        EvalError::MissingSchema { fixture, schema_id } => "golden fixture at '"@ + fixture@
            + "' requires schema '"@ + schema_id@
            + "' which is not present in the eval schema cache — run: cargo xtask capture-eval-schemas"@,
    }
}

fn join4(a: &str, b: &str, c: &str, d: &str) -> (r: String)
    ensures
        r@ == a@ + b@ + c@ + d@,
{
    let mut s = concat2(a, b);
    s.append(c);
    s.append(d);
    s
}

impl EvalError {
    /// The error's message.
    pub fn message(&self) -> (r: String)
        ensures
            r@ == eval_error_text(*self),
    {
        match self {
            EvalError::InvalidSuiteRoot(p) => concat2(
                concat2("suite root '", p.as_str()).as_str(),
                "' is not a directory",
            ),
            EvalError::MissingFixtureFile { path, missing } => join4(
                "golden fixture at '",
                path.as_str(),
                "' is missing required file: ",
                missing.as_str(),
            ),
            EvalError::ManifestParse { path, reason } => join4(
                "manifest at '",
                path.as_str(),
                "': ",
                reason.as_str(),
            ),
            EvalError::MappingPlanParse { path, reason } => join4(
                "mapping_plan at '",
                path.as_str(),
                "': ",
                reason.as_str(),
            ),
            EvalError::Io { path, reason, .. } => join4(
                "filesystem I/O at ",
                path.as_str(),
                ": ",
                reason.as_str(),
            ),
            EvalError::Generator { name, source } => {
                let detail = source.message();
                join4("generator failed for fixture '", name.as_str(), "': ", detail.as_str())
            },
            EvalError::Comparison { name, detail } => join4(
                "comparison error at fixture '",
                name.as_str(),
                "': ",
                detail.as_str(),
            ),
            EvalError::MissingSchema { fixture, schema_id } => {
                let head = join4("golden fixture at '", fixture.as_str(), "' requires schema '", schema_id.as_str());
                concat2(
                    head.as_str(),
                    "' which is not present in the eval schema cache — run: cargo xtask capture-eval-schemas",
                )
            },
        }
    }
}

} // verus!
