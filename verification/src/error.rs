//! The errors a plugin can reply with, and their wire codes.
//!
//! Every error maps to exactly one reply code and one short message; the
//! code doubles as the process exit status.

use vstd::prelude::*;

use crate::json::JsonValue;
use crate::version::Version;

verus! {

/// All errors emitted by this library, plus a few for plugins' own use.
pub enum CniError {
    /// An I/O failure, with its description.
    Io(String),
    /// A JSON document could not be decoded.
    Json(String),
    /// The CNI version requested by the runtime is not supported; holds
    /// the version provided, not ours.
    Incompatible(Version),
    /// Nothing was provided on standard input.
    MissingInput,
    /// A delegated plugin wrote nothing on standard output.
    MissingOutput,
    /// A required environment variable is missing.
    MissingEnv { var: String },
    /// An environment variable could not be parsed or is invalid.
    InvalidEnv { var: String, detail: String },
    /// The current working directory cannot be obtained.
    NoCwd,
    /// A delegated plugin cannot be found on `CNI_PATH`.
    MissingPlugin { name: String, detail: String },
    /// A delegated plugin failed; wraps its error.
    Delegated { plugin: String, err: Box<CniError> },
    /// A generic error, as a string.
    Generic(String),
    /// A debug error, as free text.
    Debug(String),
    /// A required configuration field is missing.
    MissingField(String),
    /// A configuration field is invalid.
    InvalidField { field: String, expected: String, value: JsonValue },
}

/// The reply code of an error: also the process exit status.
pub open spec fn cni_error_code(e: CniError) -> int {
    match e {
        CniError::Io(_) => 5,
        CniError::Json(_) => 6,
        CniError::Incompatible(_) => 1,
        CniError::MissingInput => 7,
        CniError::MissingOutput => 7,
        CniError::MissingEnv { .. } => 4,
        CniError::InvalidEnv { .. } => 4,
        CniError::NoCwd => 5,
        CniError::MissingPlugin { .. } => 5,
        CniError::Delegated { .. } => 5,
        CniError::Generic(_) => 100,
        CniError::Debug(_) => 101,
        CniError::MissingField(_) => 104,
        CniError::InvalidField { .. } => 107,
    }
}

/// The short message of an error.
pub open spec fn cni_error_msg(e: CniError) -> Seq<char> {
    match e {
        CniError::Io(_) => "I/O error"@,
        CniError::Json(_) => "Cannot decode JSON payload"@,
        CniError::Incompatible(_) => "Incompatible CNI version"@,
        CniError::MissingInput => "Missing payload"@,
        CniError::MissingOutput => "Missing output"@,
        CniError::MissingEnv { .. } => "Missing environment variable"@,
        CniError::InvalidEnv { .. } => "Invalid environment variable"@,
        CniError::NoCwd => "Bad workdir"@,
        CniError::MissingPlugin { .. } => "Missing plugin"@,
        CniError::Delegated { .. } => "Delegated"@,
        CniError::Generic(_) => "ERROR"@,
        CniError::Debug(_) => "DEBUG"@,
        CniError::MissingField(_) => "Missing field"@,
        CniError::InvalidField { .. } => "Invalid field"@,
    }
}

/// The long description of an error, exactly as the reply carries it.
pub open spec fn cni_error_details(e: CniError) -> Seq<char>
    decreases e,
{
    match e {
        CniError::Io(d) => d@,
        CniError::Json(d) => d@,
        CniError::Incompatible(v) => "plugin does not understand CNI version: "@
            + crate::version::version_chars(v.deep_view()),
        CniError::MissingInput => "missing input network config"@,
        CniError::MissingOutput => "missing plugin output"@,
        CniError::MissingEnv { var } => "missing environment variable: "@ + var@,
        CniError::InvalidEnv { var, detail } => "environment variable has invalid format: "@
            + var@ + ": "@ + detail@,
        CniError::NoCwd => "cannot obtain current working directory"@,
        CniError::MissingPlugin { name, detail } => "missing (or not on CNI_PATH) plugin "@
            + name@ + ": "@ + detail@,
        CniError::Delegated { plugin, err } => "with plugin "@ + plugin@ + ": "@
            + cni_error_details(*err),
        CniError::Generic(d) => d@,
        CniError::Debug(d) => d@,
        CniError::MissingField(f) => "can't proceed without "@ + f@ + " field"@,
        CniError::InvalidField { field, expected, value } => field@ + ": expected "@ + expected@
            + ", got: "@ + crate::json::print_json(value.deep_view()),
    }
}

/// The errors of the IPAM allocator plugins, wrapping [`CniError`].
pub enum AppError {
    /// Any protocol-level error.
    Cni(CniError),
    /// A URL could not be constructed.
    Url(String),
    /// An HTTP round trip failed.
    Http(String),
    /// A remote resource is missing.
    MissingResource { remote: String, resource: String, path: String },
    /// A remote resource cannot be understood.
    InvalidResource { remote: String, resource: String, path: String, detail: String },
    /// The pool has no free IP space; holds the pool name.
    PoolFull(String),
    /// The requested IP is not coverable by the pool; holds the pool name
    /// and the requested address text.
    NotInPool { pool: String, ip: String },
    /// A write to the KV store was lost or refused.
    ConsulWriteFailed,
}

/// The reply code of an allocator error.
pub open spec fn app_error_code(e: AppError) -> int {
    match e {
        AppError::Cni(inner) => cni_error_code(inner),
        AppError::Url(_) => 120,
        AppError::Http(_) => 111,
        AppError::MissingResource { .. } => 114,
        AppError::InvalidResource { .. } => 117,
        AppError::PoolFull(_) => 122,
        AppError::NotInPool { .. } => 124,
        AppError::ConsulWriteFailed => 125,
    }
}

/// The short message of an allocator error.
pub open spec fn app_error_msg(e: AppError) -> Seq<char> {
    match e {
        AppError::Cni(inner) => cni_error_msg(inner),
        AppError::Url(_) => "Error constructing URL"@,
        AppError::Http(_) => "HTTP"@,
        AppError::MissingResource { .. } => "Missing resource"@,
        AppError::InvalidResource { .. } => "Invalid resource"@,
        AppError::PoolFull(_) => "Pool is full"@,
        AppError::NotInPool { .. } => "IP not in pool"@,
        AppError::ConsulWriteFailed => "KV PUT"@,
    }
}

/// The long description of an allocator error, exactly as the reply
/// carries it.
pub open spec fn app_error_details(e: AppError) -> Seq<char> {
    match e {
        AppError::Cni(inner) => cni_error_details(inner),
        AppError::Url(d) => d@,
        AppError::Http(d) => d@,
        AppError::MissingResource { remote, resource, path } => remote@ + "::"@ + resource@
            + " at "@ + path@,
        AppError::InvalidResource { remote, resource, path, detail } => remote@ + "::"@
            + resource@ + " at "@ + path@ + ": "@ + detail@,
        AppError::PoolFull(pool) => pool@ + " does not have any free IP space"@,
        AppError::NotInPool { pool, ip } => pool@ + " cannot contain "@ + ip@,
        AppError::ConsulWriteFailed => "consul write failed"@,
    }
}

/// Underlying detail for an empty value that should not be.
#[derive(Clone, Copy, Debug, PartialEq, Eq, Structural)]
pub struct EmptyValueError;

/// Underlying detail for an invalid `CNI_COMMAND`.
#[derive(Clone, Copy, Debug, PartialEq, Eq, Structural)]
pub struct InvalidCommandError;

impl EmptyValueError {
    /// The text of this error.
    pub fn message(&self) -> (r: String)
        ensures
            r@ == "must not be empty"@,
    {
        let r: String = "must not be empty".to_owned();
        r
    }
}

impl InvalidCommandError {
    /// The text of this error.
    pub fn message(&self) -> (r: String)
        ensures
            r@ == "must be one of ADD, DEL, CHECK, VERSION"@,
    {
        let r: String = "must be one of ADD, DEL, CHECK, VERSION".to_owned();
        r
    }
}

} // verus!
