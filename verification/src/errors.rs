use vstd::prelude::*;

verus! {

/// The recognized field names of the wire documents. `Id` and `Child` belong
/// to the parent document; `Id` and `ParentId` belong to the nested child
/// transfer document.
#[derive(Clone, Copy, Debug, PartialEq, Eq, Structural)]
pub enum FieldName {
    Id,
    Child,
    ParentId,
}

/// Everything that can go wrong while serializing or deserializing a
/// parent/child pair. Every failure surfaces immediately to the caller; no
/// partial pair is ever produced alongside an error.
#[derive(Debug)]
pub enum Error {
    /// A child's back-reference did not resolve to a live parent when the
    /// child was asked to serialize itself.
    DanglingReference,
    /// A field appeared twice in an input document.
    DuplicateField(FieldName),
    /// A field with a name outside the recognized set appeared in an input
    /// document; the payload is that name.
    UnknownField(String),
    /// A required field was absent from an input document.
    MissingField(FieldName),
    /// The declared parent id inside the child sub-document disagrees with
    /// the enclosing parent's own declared id.
    IntegrityMismatch,
    /// The input text does not follow the document grammar.
    Syntax,
}

/// The mathematical value of an [`Error`]: identical, except that the unknown
/// field name is a sequence of characters rather than a `String`.
pub enum ErrorView {
    DanglingReference,
    DuplicateField(FieldName),
    UnknownField(Seq<char>),
    MissingField(FieldName),
    IntegrityMismatch,
    Syntax,
}

impl View for Error {
    type V = ErrorView;

    open spec fn view(&self) -> ErrorView {
        match self {
            Error::DanglingReference => ErrorView::DanglingReference,
            Error::DuplicateField(f) => ErrorView::DuplicateField(*f),
            Error::UnknownField(n) => ErrorView::UnknownField(n@),
            Error::MissingField(f) => ErrorView::MissingField(*f),
            Error::IntegrityMismatch => ErrorView::IntegrityMismatch,
            Error::Syntax => ErrorView::Syntax,
        }
    }
}

} // verus!
