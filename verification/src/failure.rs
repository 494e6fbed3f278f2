//! The failures that the library reports, and their human-readable messages.

use vstd::prelude::*;

verus! {

/// Why an operation did not produce its result.
#[derive(Debug, PartialEq, Eq)]
pub enum Failure {
    /// The request named a method outside the supported set; holds the method as given.
    UnsupportedMethod(String),
    /// The network call did not complete; holds the transport's own message.
    TransportError(String),
    /// No document is stored under the identifier held here.
    NotFound(String),
    /// A document exists but its content could not be parsed; holds the detail.
    CorruptDocument(String),
    /// Reading, writing or creating something on disk failed; holds the detail.
    IoFailure(String),
    /// A value could not be turned into its serialized form; holds the detail.
    SerializationFailure(String),
}

/// Mathematical counterpart of [`Failure`]: the same variants over character sequences.
pub enum FailureView {
    UnsupportedMethod(Seq<char>),
    TransportError(Seq<char>),
    NotFound(Seq<char>),
    CorruptDocument(Seq<char>),
    IoFailure(Seq<char>),
    SerializationFailure(Seq<char>),
}

impl FailureView {
    /// The text shown to the caller for this failure.
    pub open spec fn message(self) -> Seq<char> {
        match self {
            FailureView::UnsupportedMethod(method) => "Unsupported HTTP method: "@ + method,
            FailureView::TransportError(detail) => "Request failed: "@ + detail,
            FailureView::NotFound(id) => "Collection not found: "@ + id,
            FailureView::CorruptDocument(detail) => detail,
            FailureView::IoFailure(detail) => detail,
            FailureView::SerializationFailure(detail) => detail,
        }
    }
}

impl View for Failure {
    type V = FailureView;

    open spec fn view(&self) -> FailureView {
        match self {
            Failure::UnsupportedMethod(method) => FailureView::UnsupportedMethod(method@),
            Failure::TransportError(detail) => FailureView::TransportError(detail@),
            Failure::NotFound(id) => FailureView::NotFound(id@),
            Failure::CorruptDocument(detail) => FailureView::CorruptDocument(detail@),
            Failure::IoFailure(detail) => FailureView::IoFailure(detail@),
            Failure::SerializationFailure(detail) => FailureView::SerializationFailure(detail@),
        }
    }
}

impl Failure {
    /// Builds the descriptive message for this failure.
    pub fn message(&self) -> (text: String)
        ensures
            text@ == self@.message(),
    {
        match self {
            Failure::UnsupportedMethod(method) => {
                String::from_str("Unsupported HTTP method: ").concat(method.as_str())
            },
            Failure::TransportError(detail) => {
                String::from_str("Request failed: ").concat(detail.as_str())
            },
            Failure::NotFound(id) => {
                String::from_str("Collection not found: ").concat(id.as_str())
            },
            Failure::CorruptDocument(detail) => detail.clone(),
            Failure::IoFailure(detail) => detail.clone(),
            Failure::SerializationFailure(detail) => detail.clone(),
        }
    }
}

} // verus!
