//! The error type used throughout this crate.
//!
//! Every fatal condition in the build carries a kind that says which rule of
//! the input schema was violated, plus the name of the offending record (or
//! an empty name for errors about resource identifiers, which have none).

use vstd::prelude::*;

verus! {

/// What went wrong. One variant per fatal condition of the build.
#[derive(Clone, Copy, Debug, PartialEq, Eq, Structural)]
pub enum ErrorKind {
    /// A resource identifier could not be parsed at all.
    UriNotParsable,
    /// A resource identifier does not use the `file` scheme.
    UriMissingFileScheme,
    /// A resource identifier has an empty path.
    UriMissingPath,
    /// A resource identifier has no file name (bare root, or a path ending
    /// in a parent-directory marker).
    UriMissingFileName,
    /// A path was expected to start with another path and does not.
    UriNotAPrefix,
    /// A define that must carry at least one extends entry carries none.
    MissingExtends,
    /// A global assignment directly declares a doc-only type.
    UnexpectedDocExtends,
    /// The head define's kind does not match the requested item kind.
    UnexpectedDefineKind,
    /// A class declaration sits on a variable-flavored definition.
    NotATypeDefinition,
    /// An extends entry carries a tag that the requested parse does not
    /// accept.
    UnexpectedExtendsType,
    /// A field entry has a kind that the requested parse does not accept.
    UnexpectedFieldKind,
    /// A member assignment's name has no `.` separating owner and member.
    InvalidMemberName,
    /// A member assignment carries an extends entry of an unusable type.
    UnexpectedMemberType,
    /// A member assignment's owner is neither a table nor a class.
    MemberOwnerNotTable,
    /// A table-field assignment's owner is not an enum.
    MemberOwnerNotEnum,
    /// Splitting a multi-file definition left no defines for its file.
    NoDefinesForFile,
}

/// The single failure channel of the build: a kind and the offending name.
#[derive(Debug, PartialEq, Eq)]
pub struct DocError {
    pub kind: ErrorKind,
    /// Name of the offending record; empty for identifier-level errors.
    pub name: String,
}

/// Mathematical model of a `DocError`.
pub ghost struct DocErrorView {
    pub kind: ErrorKind,
    pub name: Seq<char>,
}

impl View for DocError {
    type V = DocErrorView;

    open spec fn view(&self) -> DocErrorView {
        DocErrorView { kind: self.kind, name: self.name@ }
    }
}

impl DeepView for DocError {
    type V = DocErrorView;

    open spec fn deep_view(&self) -> DocErrorView {
        self.view()
    }
}

impl DocError {
    /// An error about a named record.
    pub fn new(kind: ErrorKind, name: &String) -> (r: DocError)
        ensures
            r@ == (DocErrorView { kind, name: name@ }),
    {
        DocError { kind, name: name.clone() }
    }

    /// An error that concerns no named record.
    pub fn unnamed(kind: ErrorKind) -> (r: DocError)
        ensures
            r@ == (DocErrorView { kind, name: Seq::<char>::empty() }),
    {
        DocError { kind, name: String::new() }
    }
}

} // verus!
