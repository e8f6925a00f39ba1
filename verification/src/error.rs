//! Errors of the domain rules.
use vstd::prelude::*;

use crate::model::status::{status_name, Status};
use crate::text::push_str;

verus! {

/// The view of an optional string.
pub open spec fn opt_view(o: Option<String>) -> Option<Seq<char>> {
    match o {
        Some(s) => Some(s@),
        None => None,
    }
}

/// The views of a sequence of strings.
pub open spec fn strs(v: Seq<String>) -> Seq<Seq<char>> {
    v.map_values(|s: String| s@)
}

/// One slug that cannot become an id: taken on disk (with that atom's status) or
/// repeated earlier in the same batch (no status).
#[derive(Debug, Clone, PartialEq, Eq)]
pub struct SlugConflict {
    pub index: usize,
    pub slug: String,
    pub status: Option<Status>,
}

pub struct SlugConflictView {
    pub index: usize,
    pub slug: Seq<char>,
    pub status: Option<Status>,
}

impl View for SlugConflict {
    type V = SlugConflictView;

    open spec fn view(&self) -> SlugConflictView {
        SlugConflictView { index: self.index, slug: self.slug@, status: self.status }
    }
}

#[derive(Debug, Clone, PartialEq, Eq)]
pub enum Error {
    Validation { index: usize, field: Option<String>, message: String },
    ImmutableField { index: usize, field: String },
    InvalidTransition { id: String, from: Status, to: Status },
    SlugConflict { conflicts: Vec<SlugConflict> },
}

pub enum ErrorView {
    Validation { index: usize, field: Option<Seq<char>>, message: Seq<char> },
    ImmutableField { index: usize, field: Seq<char> },
    InvalidTransition { id: Seq<char>, from: Status, to: Status },
    SlugConflict { conflicts: Seq<SlugConflictView> },
}

impl View for Error {
    type V = ErrorView;

    open spec fn view(&self) -> ErrorView {
        match self {
            Error::Validation { index, field, message } => ErrorView::Validation {
                index: *index,
                field: opt_view(*field),
                message: message@,
            },
            Error::ImmutableField { index, field } => ErrorView::ImmutableField {
                index: *index,
                field: field@,
            },
            Error::InvalidTransition { id, from, to } => ErrorView::InvalidTransition {
                id: id@,
                from: *from,
                to: *to,
            },
            Error::SlugConflict { conflicts } => ErrorView::SlugConflict {
                conflicts: conflicts@.map_values(|c: SlugConflict| c@),
            },
        }
    }
}

/// A validation error at `index`, naming the offending field when there is one.
pub open spec fn validation_view(index: usize, field: Option<Seq<char>>, message: Seq<char>) -> ErrorView {
    ErrorView::Validation { index, field, message }
}

/// The text an error is displayed as.
pub open spec fn error_text(e: ErrorView) -> Seq<char> {
    match e {
        ErrorView::Validation { message, .. } => message,
        ErrorView::ImmutableField { field, .. } => "field `"@ + field + "` is immutable"@,
        ErrorView::InvalidTransition { id, from, to } => "invalid transition for `"@ + id
            + "` from "@ + status_name(from) + " to "@ + status_name(to),
        ErrorView::SlugConflict { .. } => "slug already exists"@,
    }
}

impl Error {
    /// A validation error at `index`, naming the offending field when there is one.
    pub fn validation(index: usize, field: Option<String>, message: String) -> (r: Self)
        ensures
            r@ == validation_view(index, opt_view(field), message@),
    {
        Error::Validation { index, field, message }
    }

    /// The human-readable text of the error.
    pub fn describe(&self) -> (r: String)
        ensures
            r@ == error_text(self@),
    {
        match self {
            Error::Validation { message, .. } => message.clone(),
            Error::ImmutableField { field, .. } => {
                let mut out = String::new();
                push_str(&mut out, "field `");
                push_str(&mut out, field.as_str());
                push_str(&mut out, "` is immutable");
                out
            },
            Error::InvalidTransition { id, from, to } => {
                let mut out = String::new();
                push_str(&mut out, "invalid transition for `");
                push_str(&mut out, id.as_str());
                push_str(&mut out, "` from ");
                push_str(&mut out, from.as_str());
                push_str(&mut out, " to ");
                push_str(&mut out, to.as_str());
                out
            },
            Error::SlugConflict { .. } => {
                let mut out = String::new();
                push_str(&mut out, "slug already exists");
                out
            },
        }
    }
}

} // verus!
