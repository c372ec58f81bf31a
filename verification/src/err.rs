//! The error model: one error type, two kinds, and a human-readable message
//! naming the exact field or step that failed.

use vstd::prelude::*;
use vstd::string::StringExecFns;

verus! {

/// The kind of failure an operation ran into.
#[derive(Debug, Clone, Copy)]
pub enum ErrorKind {
    /// A failure while applying a patch to a target.
    PatchingError,
    /// A failure while parsing patch bytes.
    ParsingError,
}

/// An error raised while parsing or applying a patch.
///
/// Besides its kind it carries an optional description naming the field or
/// step that failed, and optionally the text of an underlying failure kept
/// for diagnostic chaining.
#[derive(Debug)]
pub struct Error {
    /// The kind of failure.
    pub kind: ErrorKind,
    /// Which field or step failed, e.g. `"Unable to read payload."`.
    pub description: Option<String>,
    /// The text of the underlying failure, where one exists.
    pub source: Option<String>,
}

/// The name under which a kind appears in an error's message.
pub open spec fn kind_name(kind: ErrorKind) -> Seq<char> {
    match kind {
        ErrorKind::PatchingError => "PatchingError"@,
        ErrorKind::ParsingError => "ParsingError"@,
    }
}

impl Error {
    /// The message [`Error::message`] returns: the kind's name, then
    /// `": "` and the description where one is present.
    pub open spec fn spec_message(self) -> Seq<char> {
        match self.description {
            Some(description) => kind_name(self.kind) + ": "@ + description@,
            None => kind_name(self.kind),
        }
    }

    /// Creates a new error of the given `kind`.
    pub fn new(kind: ErrorKind) -> (r: Error)
        ensures
            r == (Error { kind, description: None, source: None }),
    {
        Error { kind, description: None, source: None }
    }

    /// Returns the error with its description set to `description`.
    pub fn with_description(self, description: String) -> (r: Error)
        ensures
            r == (Error { description: Some(description), ..self }),
    {
        Error { kind: self.kind, description: Some(description), source: self.source }
    }

    /// Returns the error with its underlying cause set to `source`.
    pub fn with_source(self, source: String) -> (r: Error)
        ensures
            r == (Error { source: Some(source), ..self }),
    {
        Error { kind: self.kind, description: self.description, source: Some(source) }
    }

    /// Renders the error for a reader: the kind's name, followed by the
    /// description where one is present.
    pub fn message(&self) -> (r: String)
        ensures
            r@ == self.spec_message(),
    {
        let name: &str = match self.kind {
            ErrorKind::PatchingError => "PatchingError",
            ErrorKind::ParsingError => "ParsingError",
        };
        match &self.description {
            Some(description) => String::from_str(name).concat(": ").concat(
                description.as_str(),
            ),
            None => String::from_str(name),
        }
    }
}

} // verus!
