//! The errors that a request is answered with.

use vstd::prelude::*;

verus! {

/// An error answer, with the message that the client reads.
#[derive(Debug)]
pub enum AppError {
    BadRequest(String),
    Unauthorized(String),
    NotFound(String),
    Internal(String),
}

/// [`AppError`] with its message as a sequence of characters.
pub enum ErrorView {
    BadRequest(Seq<char>),
    Unauthorized(Seq<char>),
    NotFound(Seq<char>),
    Internal(Seq<char>),
}

impl View for AppError {
    type V = ErrorView;

    open spec fn view(&self) -> ErrorView {
        match self {
            AppError::BadRequest(m) => ErrorView::BadRequest(m@),
            AppError::Unauthorized(m) => ErrorView::Unauthorized(m@),
            AppError::NotFound(m) => ErrorView::NotFound(m@),
            AppError::Internal(m) => ErrorView::Internal(m@),
        }
    }
}

} // verus!
