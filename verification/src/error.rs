//! The error of every fallible operation.

use vstd::prelude::*;

verus! {

/// Why an operation was refused.
#[derive(Clone, Debug, PartialEq, Eq)]
pub enum CodegenError {
    /// A feature or an input is not supported; the text says which.
    Unsupported(String),
}

/// The result of an operation that can be refused.
pub type CodegenResult<T> = Result<T, CodegenError>;

impl CodegenError {
    /// The text of the error.
    pub open spec fn text(self) -> Seq<char> {
        match self {
            CodegenError::Unsupported(text) => text@,
        }
    }

    /// The text of the error, as a string.
    pub fn message(&self) -> (text: String)
        ensures
            text@ == self.text(),
    {
        match self {
            CodegenError::Unsupported(text) => text.clone(),
        }
    }
}

/// The error whose text is `prefix` followed by `detail`.
pub(crate) fn unsupported(prefix: &str, detail: &str) -> (error: CodegenError)
    ensures
        error.text() == prefix@ + detail@,
{
    let mut text = String::new();
    text.append(prefix);
    text.append(detail);
    CodegenError::Unsupported(text)
}

} // verus!
