//! The library's error type.

use vstd::prelude::*;

verus! {

/// What went wrong with a request.
#[derive(Debug)]
pub enum AppError {
    /// The store refused the change (a broken constraint, a missing row).
    Db(String),
    /// No row of `entity` has the id.
    NotFound { entity: &'static str, id: String },
    /// The request breaks a rule of the planner.
    Validation(String),
}

/// The mathematical value of an `AppError`.
pub enum ErrorView {
    Db(Seq<char>),
    NotFound { entity: Seq<char>, id: Seq<char> },
    Validation(Seq<char>),
}

impl View for AppError {
    type V = ErrorView;

    open spec fn view(&self) -> ErrorView {
        match self {
            AppError::Db(m) => ErrorView::Db(m@),
            AppError::NotFound { entity, id } => ErrorView::NotFound { entity: entity@, id: id@ },
            AppError::Validation(m) => ErrorView::Validation(m@),
        }
    }
}

/// The wire code of an error, as the frontend receives it.
pub open spec fn error_code(e: ErrorView) -> Seq<char> {
    match e {
        ErrorView::Db(_) => "db"@,
        ErrorView::NotFound { .. } => "not_found"@,
        ErrorView::Validation(_) => "validation"@,
    }
}

/// The human-readable text of an error.
pub open spec fn error_message(e: ErrorView) -> Seq<char> {
    match e {
        ErrorView::Db(m) => "database error: "@ + m,
        ErrorView::NotFound { entity, id } => entity + " not found: "@ + id,
        ErrorView::Validation(m) => "validation failed: "@ + m,
    }
}

impl AppError {
    /// The wire code: `db`, `not_found` or `validation`.
    pub fn code(&self) -> (c: &'static str)
        ensures
            c@ == error_code(self@),
    {
        match self {
            AppError::Db(_) => "db",
            AppError::NotFound { .. } => "not_found",
            AppError::Validation(_) => "validation",
        }
    }

    /// The human-readable text: `database error: ...`, `<entity> not found:
    /// <id>`, or `validation failed: ...`.
    pub fn message(&self) -> (m: String)
        ensures
            m@ == error_message(self@),
    {
        match self {
            AppError::Db(msg) => {
                let mut out = String::from_str("database error: ");
                out.append(msg.as_str());
                out
            },
            AppError::NotFound { entity, id } => {
                let mut out = String::from_str(entity);
                out.append(" not found: ");
                out.append(id.as_str());
                out
            },
            AppError::Validation(msg) => {
                let mut out = String::from_str("validation failed: ");
                out.append(msg.as_str());
                out
            },
        }
    }
}

} // verus!
