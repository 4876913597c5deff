//! Errors that the store reports to its callers.

use crate::thread_id::ThreadId;
use vstd::prelude::*;

verus! {

/// Why a request to the store failed.
#[derive(Debug)]
pub enum ThreadStoreError {
    /// No thread with this identifier is stored.
    ThreadNotFound { thread_id: ThreadId },
    /// The request, or the stored data that it names, is not acceptable.
    InvalidRequest { message: String },
    /// Another owner holds what the request needs.
    Conflict { message: String },
    /// The store does not offer this operation.
    Unsupported { operation: &'static str },
    /// The store itself failed.
    Internal { message: String },
}

pub type ThreadStoreResult<T> = Result<T, ThreadStoreError>;

/// What a [`ThreadStoreError`] says, with its texts as sequences of characters.
pub enum ErrorView {
    ThreadNotFound { thread_id: ThreadId },
    InvalidRequest { message: Seq<char> },
    Conflict { message: Seq<char> },
    Unsupported { operation: Seq<char> },
    Internal { message: Seq<char> },
}

impl View for ThreadStoreError {
    type V = ErrorView;

    open spec fn view(&self) -> ErrorView {
        match *self {
            ThreadStoreError::ThreadNotFound { thread_id } => ErrorView::ThreadNotFound {
                thread_id,
            },
            ThreadStoreError::InvalidRequest { message } => ErrorView::InvalidRequest {
                message: message@,
            },
            ThreadStoreError::Conflict { message } => ErrorView::Conflict { message: message@ },
            ThreadStoreError::Unsupported { operation } => ErrorView::Unsupported {
                operation: operation@,
            },
            ThreadStoreError::Internal { message } => ErrorView::Internal { message: message@ },
        }
    }
}

/// What an error says is what it is: its kind, and its text or its thread.
pub proof fn law_errors_say_what_they_are(error: ThreadStoreError)
    ensures
        error matches ThreadStoreError::ThreadNotFound { thread_id } ==> error@ == (
        ErrorView::ThreadNotFound { thread_id }),
        error matches ThreadStoreError::InvalidRequest { message } ==> error@ == (
        ErrorView::InvalidRequest { message: message@ }),
        error matches ThreadStoreError::Conflict { message } ==> error@ == (ErrorView::Conflict {
            message: message@,
        }),
        error matches ThreadStoreError::Unsupported { operation } ==> error@ == (
        ErrorView::Unsupported { operation: operation@ }),
        error matches ThreadStoreError::Internal { message } ==> error@ == (ErrorView::Internal {
            message: message@,
        }),
{
}

} // verus!
