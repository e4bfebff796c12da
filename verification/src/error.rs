//! Typed errors of the library and the process exit codes they map to.
use vstd::prelude::*;
use crate::text::concat;

verus! {

/// Everything that can go wrong while inspecting an archive.
#[derive(Debug, Clone, PartialEq, Eq)]
pub enum AppError {
    ArchiveRead { archive_path: String, details: String },
    ProjectRootDetection { archive_path: String, details: String },
    JsonParse { archive_path: String, json_path: String, details: String },
    ResourceIntegrity { details: String },
    Internal { details: String },
}

/// The mathematical content of an error: its variant and the text of its fields.
pub enum AppErrorView {
    ArchiveRead { archive_path: Seq<char>, details: Seq<char> },
    ProjectRootDetection { archive_path: Seq<char>, details: Seq<char> },
    JsonParse { archive_path: Seq<char>, json_path: Seq<char>, details: Seq<char> },
    ResourceIntegrity { details: Seq<char> },
    Internal { details: Seq<char> },
}

impl View for AppError {
    type V = AppErrorView;

    open spec fn view(&self) -> AppErrorView {
        match self {
            AppError::ArchiveRead { archive_path, details } => AppErrorView::ArchiveRead {
                archive_path: archive_path@,
                details: details@,
            },
            AppError::ProjectRootDetection { archive_path, details } =>
                AppErrorView::ProjectRootDetection {
                archive_path: archive_path@,
                details: details@,
            },
            AppError::JsonParse { archive_path, json_path, details } => AppErrorView::JsonParse {
                archive_path: archive_path@,
                json_path: json_path@,
                details: details@,
            },
            AppError::ResourceIntegrity { details } => AppErrorView::ResourceIntegrity {
                details: details@,
            },
            AppError::Internal { details } => AppErrorView::Internal { details: details@ },
        }
    }
}

/// The exit code of each kind of error.
pub open spec fn exit_code_of(e: AppErrorView) -> i32 {
    match e {
        AppErrorView::ArchiveRead { .. } => 10,
        AppErrorView::ProjectRootDetection { .. } => 11,
        AppErrorView::JsonParse { .. } => 12,
        AppErrorView::ResourceIntegrity { .. } => 13,
        AppErrorView::Internal { .. } => 20,
    }
}

/// The human-readable text of an error.
pub open spec fn message_of(e: AppErrorView) -> Seq<char> {
    match e {
        AppErrorView::ArchiveRead { archive_path, details } => "Failed to read archive `"@
            + archive_path + "`: "@ + details,
        AppErrorView::ProjectRootDetection { archive_path, details } =>
            "Could not detect project roots in `"@ + archive_path + "`: "@ + details,
        AppErrorView::JsonParse { archive_path, json_path, details } => "Failed to parse JSON `"@
            + json_path + "` in `"@ + archive_path + "`: "@ + details,
        AppErrorView::ResourceIntegrity { details } => "Manifest integrity error: "@ + details,
        AppErrorView::Internal { details } => "Internal error: "@ + details,
    }
}

impl AppError {
    /// Creates an archive read error with context.
    pub fn archive_read(archive_path: &str, details: &str) -> (e: Self)
        ensures
            e@ == (AppErrorView::ArchiveRead { archive_path: archive_path@, details: details@ }),
    {
        AppError::ArchiveRead {
            archive_path: String::from_str(archive_path),
            details: String::from_str(details),
        }
    }

    /// Creates a project detection error for an archive path.
    pub fn project_root_detection(archive_path: &str, details: &str) -> (e: Self)
        ensures
            e@ == (AppErrorView::ProjectRootDetection {
                archive_path: archive_path@,
                details: details@,
            }),
    {
        AppError::ProjectRootDetection {
            archive_path: String::from_str(archive_path),
            details: String::from_str(details),
        }
    }

    /// Creates a JSON-parse error with added context (such as archive and path).
    pub fn json_parse(archive_path: &str, json_path: &str, details: &str) -> (e: Self)
        ensures
            e@ == (AppErrorView::JsonParse {
                archive_path: archive_path@,
                json_path: json_path@,
                details: details@,
            }),
    {
        AppError::JsonParse {
            archive_path: String::from_str(archive_path),
            json_path: String::from_str(json_path),
            details: String::from_str(details),
        }
    }

    /// Creates an error for a resource whose manifest does not match the archive.
    pub fn resource_integrity(details: &str) -> (e: Self)
        ensures
            e@ == (AppErrorView::ResourceIntegrity { details: details@ }),
    {
        AppError::ResourceIntegrity { details: String::from_str(details) }
    }

    /// Creates a generic internal error for unexpected states.
    pub fn internal(details: &str) -> (e: Self)
        ensures
            e@ == (AppErrorView::Internal { details: details@ }),
    {
        AppError::Internal { details: String::from_str(details) }
    }

    /// The human-readable text of the error, as printed to the user.
    pub fn message(&self) -> (m: String)
        ensures
            m@ == message_of(self@),
    {
        match self {
            AppError::ArchiveRead { archive_path, details } => {
                let m = concat("Failed to read archive `", archive_path.as_str());
                let m = concat(m.as_str(), "`: ");
                concat(m.as_str(), details.as_str())
            },
            AppError::ProjectRootDetection { archive_path, details } => {
                let m = concat("Could not detect project roots in `", archive_path.as_str());
                let m = concat(m.as_str(), "`: ");
                concat(m.as_str(), details.as_str())
            },
            AppError::JsonParse { archive_path, json_path, details } => {
                let m = concat("Failed to parse JSON `", json_path.as_str());
                let m = concat(m.as_str(), "` in `");
                let m = concat(m.as_str(), archive_path.as_str());
                let m = concat(m.as_str(), "`: ");
                concat(m.as_str(), details.as_str())
            },
            AppError::ResourceIntegrity { details } => {
                concat("Manifest integrity error: ", details.as_str())
            },
            AppError::Internal { details } => concat("Internal error: ", details.as_str()),
        }
    }
}

/// Maps typed errors to exit codes.
pub fn exit_code_for_error(err: &AppError) -> (code: i32)
    ensures
        code == exit_code_of(err@),
{
    match err {
        AppError::ArchiveRead { .. } => 10,
        AppError::ProjectRootDetection { .. } => 11,
        AppError::JsonParse { .. } => 12,
        AppError::ResourceIntegrity { .. } => 13,
        AppError::Internal { .. } => 20,
    }
}

/// Exit codes are stable and tell the kinds of error apart: each kind has its
/// own nonzero code.
pub proof fn lemma_exit_codes_distinct(a: AppErrorView, b: AppErrorView)
    ensures
        exit_code_of(a) != 0,
        exit_code_of(a) == exit_code_of(b) <==> ((a is ArchiveRead && b is ArchiveRead) || (
        a is ProjectRootDetection && b is ProjectRootDetection) || (a is JsonParse
            && b is JsonParse) || (a is ResourceIntegrity && b is ResourceIntegrity) || (
        a is Internal && b is Internal)),
{
}

} // verus!
