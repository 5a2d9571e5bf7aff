use vstd::prelude::*;

verus! {

/// Why a reply could not be read as what was expected.
#[derive(Debug, Clone, Copy, PartialEq, Eq, Structural, Hash)]
pub enum DecodeError {
    /// The reply has no body.
    Empty,
    /// The body is not JSON text.
    Syntax,
    /// Something that has to be there is not.
    MissingField,
    /// Something is there, but is not of the kind it has to be.
    TypeMismatch,
}

/// What can go wrong with a request, from building it to reading its reply.
#[derive(Debug, Clone, PartialEq, Eq)]
pub enum Error {
    /// The request could not be put in its wire form.
    Encode,
    /// The remote end answered, and reported a failure.
    Api { error_code: i64, description: String },
    /// The reply is not of the shape that was expected.
    Decode(DecodeError),
}

/// The mathematical value of an [`Error`].
pub ghost enum ErrorView {
    Encode,
    Api { error_code: int, description: Seq<char> },
    Decode(DecodeError),
}

impl View for Error {
    type V = ErrorView;

    open spec fn view(&self) -> ErrorView {
        match self {
            Error::Encode => ErrorView::Encode,
            Error::Api { error_code, description } => ErrorView::Api {
                error_code: *error_code as int,
                description: description@,
            },
            Error::Decode(e) => ErrorView::Decode(*e),
        }
    }
}

} // verus!
