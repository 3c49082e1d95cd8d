//! The engine's error type, its wire form, and the mapping of storage
//! and provider failures into it.

use vstd::prelude::*;
use crate::text::{append_str, decimal, has_substring, push_decimal, str_contains};

verus! {

/// Errors of the engine.
#[derive(Debug, Clone, PartialEq, Eq)]
pub enum AppError {
    ProjectNotFound(String),
    FileNotFound(String),
    NotFound(String),
    ScanTimeout { files_processed: usize, total_files: usize },
    Database(String),
    AIUnavailable(String),
    AIRateLimited,
    AITokenLimit,
    InvalidApiKey,
    AccessDenied(String),
    Internal(String),
}

/// The human-readable text of an error.
pub open spec fn error_text(e: AppError) -> Seq<char> {
    match e {
        AppError::ProjectNotFound(p) => "Project not found: "@ + p@,
        AppError::FileNotFound(p) => "File not found: "@ + p@,
        AppError::NotFound(id) => "Scan not found: "@ + id@,
        AppError::ScanTimeout { files_processed, total_files } => "Scan timeout: processed "@ + decimal(
            files_processed as nat,
        ) + "/"@ + decimal(total_files as nat) + " files"@,
        AppError::Database(m) => "Database error: "@ + m@,
        AppError::AIUnavailable(m) => "AI unavailable: "@ + m@,
        AppError::AIRateLimited => "AI rate limited"@,
        AppError::AITokenLimit => "AI token limit exceeded"@,
        AppError::InvalidApiKey => "Invalid API key"@,
        AppError::AccessDenied(r) => "Access denied: "@ + r@,
        AppError::Internal(m) => "Internal error: "@ + m@,
    }
}

/// The code of an error on the wire.
pub open spec fn ipc_code(e: AppError) -> Seq<char> {
    match e {
        AppError::ProjectNotFound(_) => "PROJECT_NOT_FOUND"@,
        AppError::FileNotFound(_) => "FILE_NOT_FOUND"@,
        AppError::NotFound(_) => "NOT_FOUND"@,
        AppError::ScanTimeout { .. } => "SCAN_TIMEOUT"@,
        AppError::Database(_) => "DATABASE"@,
        AppError::AIUnavailable(_) => "AI_UNAVAILABLE"@,
        AppError::AIRateLimited => "AI_RATE_LIMITED"@,
        AppError::AITokenLimit => "AI_TOKEN_LIMIT"@,
        AppError::InvalidApiKey => "INVALID_API_KEY"@,
        AppError::AccessDenied(_) => "ACCESS_DENIED"@,
        AppError::Internal(_) => "INTERNAL"@,
    }
}

/// The message of an error on the wire: its text, except that a timeout
/// does not end with " files".
pub open spec fn ipc_message(e: AppError) -> Seq<char> {
    match e {
        AppError::ScanTimeout { files_processed, total_files } => "Scan timeout: processed "@ + decimal(
            files_processed as nat,
        ) + "/"@ + decimal(total_files as nat),
        _ => error_text(e),
    }
}

/// Structured details attached to an error on the wire.
#[derive(Debug, Clone, PartialEq, Eq)]
pub enum ErrorDetails {
    /// One named text field.
    Field { key: &'static str, value: String },
    /// Progress of a scan that timed out.
    Progress { files_processed: usize, total_files: usize },
}

impl AppError {
    /// The human-readable text of the error.
    pub fn to_text(&self) -> (r: String)
        ensures
            r@ == error_text(*self),
    {
        let mut r = String::new();
        match self {
            AppError::ProjectNotFound(p) => {
                append_str(&mut r, "Project not found: ");
                append_str(&mut r, p.as_str());
            },
            AppError::FileNotFound(p) => {
                append_str(&mut r, "File not found: ");
                append_str(&mut r, p.as_str());
            },
            AppError::NotFound(id) => {
                append_str(&mut r, "Scan not found: ");
                append_str(&mut r, id.as_str());
            },
            AppError::ScanTimeout { files_processed, total_files } => {
                append_str(&mut r, "Scan timeout: processed ");
                push_decimal(&mut r, *files_processed as u64);
                append_str(&mut r, "/");
                push_decimal(&mut r, *total_files as u64);
                append_str(&mut r, " files");
            },
            AppError::Database(m) => {
                append_str(&mut r, "Database error: ");
                append_str(&mut r, m.as_str());
            },
            AppError::AIUnavailable(m) => {
                append_str(&mut r, "AI unavailable: ");
                append_str(&mut r, m.as_str());
            },
            AppError::AIRateLimited => {
                append_str(&mut r, "AI rate limited");
            },
            AppError::AITokenLimit => {
                append_str(&mut r, "AI token limit exceeded");
            },
            AppError::InvalidApiKey => {
                append_str(&mut r, "Invalid API key");
            },
            AppError::AccessDenied(res) => {
                append_str(&mut r, "Access denied: ");
                append_str(&mut r, res.as_str());
            },
            AppError::Internal(m) => {
                append_str(&mut r, "Internal error: ");
                append_str(&mut r, m.as_str());
            },
        }
        assert(r@ =~= error_text(*self));
        r
    }

    /// The code of the error on the wire.
    pub fn ipc_code(&self) -> (r: &'static str)
        ensures
            r@ == ipc_code(*self),
    {
        match self {
            AppError::ProjectNotFound(_) => "PROJECT_NOT_FOUND",
            AppError::FileNotFound(_) => "FILE_NOT_FOUND",
            AppError::NotFound(_) => "NOT_FOUND",
            AppError::ScanTimeout { .. } => "SCAN_TIMEOUT",
            AppError::Database(_) => "DATABASE",
            AppError::AIUnavailable(_) => "AI_UNAVAILABLE",
            AppError::AIRateLimited => "AI_RATE_LIMITED",
            AppError::AITokenLimit => "AI_TOKEN_LIMIT",
            AppError::InvalidApiKey => "INVALID_API_KEY",
            AppError::AccessDenied(_) => "ACCESS_DENIED",
            AppError::Internal(_) => "INTERNAL",
        }
    }

    /// The message of the error on the wire.
    pub fn ipc_message(&self) -> (r: String)
        ensures
            r@ == ipc_message(*self),
    {
        match self {
            AppError::ScanTimeout { files_processed, total_files } => {
                let mut r = String::new();
                append_str(&mut r, "Scan timeout: processed ");
                push_decimal(&mut r, *files_processed as u64);
                append_str(&mut r, "/");
                push_decimal(&mut r, *total_files as u64);
                assert(r@ =~= ipc_message(*self));
                r
            },
            _ => self.to_text(),
        }
    }

    /// The structured details of the error on the wire: the offending path,
    /// id, reason or resource, or the progress of a timed-out scan; none for
    /// the errors that carry no value.
    pub fn ipc_details(&self) -> (r: Option<ErrorDetails>)
        ensures
            match *self {
                AppError::ProjectNotFound(p) | AppError::FileNotFound(p) => r matches Some(
                    ErrorDetails::Field { key, value },
                ) && key@ == "path"@ && value@ == p@,
                AppError::NotFound(id) => r matches Some(ErrorDetails::Field { key, value }) && key@ == "id"@
                    && value@ == id@,
                AppError::ScanTimeout { files_processed, total_files } => r == Some(
                    ErrorDetails::Progress { files_processed, total_files },
                ),
                AppError::Database(m) | AppError::AIUnavailable(m) | AppError::Internal(m) => r matches Some(
                    ErrorDetails::Field { key, value },
                ) && key@ == "reason"@ && value@ == m@,
                AppError::AccessDenied(res) => r matches Some(ErrorDetails::Field { key, value }) && key@
                    == "resource"@ && value@ == res@,
                _ => r is None,
            },
    {
        match self {
            AppError::ProjectNotFound(p) | AppError::FileNotFound(p) => Some(
                ErrorDetails::Field { key: "path", value: p.clone() },
            ),
            AppError::NotFound(id) => Some(ErrorDetails::Field { key: "id", value: id.clone() }),
            AppError::ScanTimeout { files_processed, total_files } => Some(
                ErrorDetails::Progress { files_processed: *files_processed, total_files: *total_files },
            ),
            AppError::Database(m) | AppError::AIUnavailable(m) | AppError::Internal(m) => Some(
                ErrorDetails::Field { key: "reason", value: m.clone() },
            ),
            AppError::AccessDenied(res) => Some(ErrorDetails::Field { key: "resource", value: res.clone() }),
            _ => None,
        }
    }
}

/// The SQLite message of a UNIQUE violation on `projects.root_path`.
pub open spec fn root_path_conflict_text() -> Seq<char> {
    "UNIQUE constraint failed: projects.root_path"@
}

/// Whether an error string reports a UNIQUE violation on
/// `projects.root_path` (case-sensitive, as SQLite writes it).
pub fn is_root_path_conflict(err: &str) -> (r: bool)
    ensures
        r == has_substring(err@, root_path_conflict_text()),
{
    str_contains(err, "UNIQUE constraint failed: projects.root_path")
}

/// Maps a `save_scan_result` error string to a user-facing message: a
/// root-path conflict becomes "Project already exists at path: {root_path}",
/// any other error is returned unchanged.
pub fn map_save_scan_result_error(err: &str, root_path: &str, project_id: &str) -> (r: String)
    ensures
        has_substring(err@, root_path_conflict_text()) ==> r@ == "Project already exists at path: "@ + root_path@,
        !has_substring(err@, root_path_conflict_text()) ==> r@ == err@,
{
    if is_root_path_conflict(err) {
        let mut r = String::new();
        append_str(&mut r, "Project already exists at path: ");
        append_str(&mut r, root_path);
        assert(Seq::<char>::empty() + "Project already exists at path: "@ =~= "Project already exists at path: "@);
        r
    } else {
        err.to_owned()
    }
}

/// The error for an unsuccessful HTTP reply of an AI provider.
pub open spec fn error_for_status(status: u16, body: Seq<char>, e: AppError) -> bool {
    if status == 401 || status == 403 {
        e == AppError::InvalidApiKey
    } else if status == 429 {
        e == AppError::AIRateLimited
    } else if status == 400 && has_substring(body, "token"@) {
        e == AppError::AITokenLimit
    } else {
        e matches AppError::AIUnavailable(m) && m@ == "HTTP "@ + decimal(status as nat)
    }
}

/// Maps an unsuccessful HTTP status of an AI provider, with its body, to an
/// error: 401 and 403 mean an invalid key, 429 rate limiting, 400 with
/// "token" in the body the token limit, anything else "HTTP {status}".
pub fn map_error_response(status: u16, body: &str) -> (r: AppError)
    ensures
        error_for_status(status, body@, r),
{
    if status == 401 || status == 403 {
        AppError::InvalidApiKey
    } else if status == 429 {
        AppError::AIRateLimited
    } else if status == 400 && str_contains(body, "token") {
        AppError::AITokenLimit
    } else {
        let mut m = String::new();
        append_str(&mut m, "HTTP ");
        push_decimal(&mut m, status as u64);
        assert(m@ =~= "HTTP "@ + decimal(status as nat));
        AppError::AIUnavailable(m)
    }
}

} // verus!
