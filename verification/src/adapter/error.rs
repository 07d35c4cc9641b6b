//! Errors at the edges of the lake.

use vstd::prelude::*;

verus! {

/// Why a service could not be read or written.
#[derive(Debug, PartialEq, Eq)]
pub enum AdapterError {
    Network { message: String },
    AuthFailure { message: String },
    RateLimited { retry_after_secs: u64 },
    MalformedResponse { message: String },
    Other(String),
}

/// What an adapter error says.
pub enum AdapterErrorView {
    Network(Seq<char>),
    AuthFailure(Seq<char>),
    RateLimited(u64),
    MalformedResponse(Seq<char>),
    Other(Seq<char>),
}

impl View for AdapterError {
    type V = AdapterErrorView;

    open spec fn view(&self) -> AdapterErrorView {
        match *self {
            AdapterError::Network { message } => AdapterErrorView::Network(message@),
            AdapterError::AuthFailure { message } => AdapterErrorView::AuthFailure(message@),
            AdapterError::RateLimited { retry_after_secs } => AdapterErrorView::RateLimited(
                retry_after_secs,
            ),
            AdapterError::MalformedResponse { message } => AdapterErrorView::MalformedResponse(
                message@,
            ),
            AdapterError::Other(message) => AdapterErrorView::Other(message@),
        }
    }
}

} // verus!
