//! The error type of the reader.

use vstd::prelude::*;

verus! {

/// Why a document, or a part of one, could not be read.
#[derive(Debug, Clone)]
pub enum PdfError {
    /// Malformed or unsupported input, with a description.
    Other(String),
}

impl View for PdfError {
    type V = Seq<char>;

    open spec fn view(&self) -> Seq<char> {
        match *self {
            PdfError::Other(s) => s@,
        }
    }
}

impl PdfError {
    /// An error with the given description.
    pub fn other(message: &str) -> (r: PdfError)
        ensures
            r@ == message@,
    {
        PdfError::Other(message.to_owned())
    }

    /// The description.
    pub fn to_string(&self) -> (r: String)
        ensures
            r@ == self@,
    {
        match self {
            PdfError::Other(s) => s.clone(),
        }
    }
}

/// A result seen through the views of its value and of its error.
pub open spec fn outcome<T: View>(r: Result<T, PdfError>) -> Result<T::V, Seq<char>> {
    match r {
        Ok(v) => Ok(v@),
        Err(e) => Err(e@),
    }
}

} // verus!
