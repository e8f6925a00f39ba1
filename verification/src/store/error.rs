//! Errors of the store.
use vstd::prelude::*;

use crate::text::push_str;

verus! {

/// `std::io::Error`, carried through the store's errors unopened.
#[verifier::external_type_specification]
#[verifier::external_body]
pub struct ExIoError(std::io::Error);

/// What can go wrong reading or writing atoms on disk.
#[derive(Debug)]
pub enum Error {
    NotFound { id: String },
    Parse { id: String, message: String },
    IdMismatch { path_id: String, atom_id: String },
    Io(std::io::Error),
}

pub enum ErrorView {
    NotFound { id: Seq<char> },
    Parse { id: Seq<char>, message: Seq<char> },
    IdMismatch { path_id: Seq<char>, atom_id: Seq<char> },
    Io,
}

impl View for Error {
    type V = ErrorView;

    open spec fn view(&self) -> ErrorView {
        match self {
            Error::NotFound { id } => ErrorView::NotFound { id: id@ },
            Error::Parse { id, message } => ErrorView::Parse { id: id@, message: message@ },
            Error::IdMismatch { path_id, atom_id } => ErrorView::IdMismatch {
                path_id: path_id@,
                atom_id: atom_id@,
            },
            Error::Io(_) => ErrorView::Io,
        }
    }
}

/// The text a store error other than an I/O error is displayed as.
pub open spec fn store_error_text(e: ErrorView) -> Seq<char> {
    match e {
        ErrorView::NotFound { id } => "atom `"@ + id + "` not found"@,
        ErrorView::Parse { id, message } => "failed to parse atom `"@ + id + "`: "@ + message,
        ErrorView::IdMismatch { path_id, atom_id } => "atom id mismatch: path `"@ + path_id
            + "` vs frontmatter `"@ + atom_id + "`"@,
        ErrorView::Io => seq![],
    }
}

/// The `Display` text of a `std::io::Error` (through `format!`). The text comes
/// from the operating system or whoever made the error, so nothing is stated of it.
#[verifier::external_body]
fn io_error_text(e: &std::io::Error) -> (r: String) {
    format!("{}", e)
}

impl Error {
    /// The human-readable text of the error; an I/O error shows the system's text.
    pub fn describe(&self) -> (r: String)
        ensures
            !(self@ is Io) ==> r@ == store_error_text(self@),
    {
        let mut out = String::new();
        match self {
            Error::NotFound { id } => {
                push_str(&mut out, "atom `");
                push_str(&mut out, id.as_str());
                push_str(&mut out, "` not found");
            },
            Error::Parse { id, message } => {
                push_str(&mut out, "failed to parse atom `");
                push_str(&mut out, id.as_str());
                push_str(&mut out, "`: ");
                push_str(&mut out, message.as_str());
            },
            Error::IdMismatch { path_id, atom_id } => {
                push_str(&mut out, "atom id mismatch: path `");
                push_str(&mut out, path_id.as_str());
                push_str(&mut out, "` vs frontmatter `");
                push_str(&mut out, atom_id.as_str());
                push_str(&mut out, "`");
            },
            Error::Io(e) => {
                out = io_error_text(e);
            },
        }
        out
    }
}

/// The error of a failed read or removal of the file of atom `id`: a file that is
/// missing is `NotFound`; any other failure is passed on as it is.
pub fn file_failure(id: &str, missing: bool, e: std::io::Error) -> (r: Error)
    ensures
        missing ==> r@ == (ErrorView::NotFound { id: id@ }),
        !missing ==> r == Error::Io(e),
{
    if missing {
        Error::NotFound { id: String::from_str(id) }
    } else {
        Error::Io(e)
    }
}

} // verus!
