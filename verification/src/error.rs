//! Why a credential could not be resolved.
use vstd::prelude::*;

verus! {

/// An error of this library, with the text that explains it.
#[derive(Debug)]
pub enum NonoError {
    /// A credential reference or a list of them is malformed.
    ConfigParse(String),
    /// A secret store could not be reached, or refused the request.
    KeystoreAccess(String),
    /// The secret store was reached and does not hold the secret.
    SecretNotFound(String),
}

/// What a [`NonoError`] says.
pub enum ErrorView {
    ConfigParse(Seq<char>),
    KeystoreAccess(Seq<char>),
    SecretNotFound(Seq<char>),
}

impl ErrorView {
    /// The text that explains the error.
    pub open spec fn message(self) -> Seq<char> {
        match self {
            ErrorView::ConfigParse(text) => text,
            ErrorView::KeystoreAccess(text) => text,
            ErrorView::SecretNotFound(text) => text,
        }
    }
}

impl View for NonoError {
    type V = ErrorView;

    open spec fn view(&self) -> ErrorView {
        match self {
            NonoError::ConfigParse(text) => ErrorView::ConfigParse(text@),
            NonoError::KeystoreAccess(text) => ErrorView::KeystoreAccess(text@),
            NonoError::SecretNotFound(text) => ErrorView::SecretNotFound(text@),
        }
    }
}

impl NonoError {
    /// The text that explains the error.
    pub fn message(&self) -> (text: &str)
        ensures
            text@ == self@.message(),
    {
        match self {
            NonoError::ConfigParse(text) => text.as_str(),
            NonoError::KeystoreAccess(text) => text.as_str(),
            NonoError::SecretNotFound(text) => text.as_str(),
        }
    }
}

/// The view of an error has its kind and its text, and its message is that text.
pub proof fn law_error_view(text: String)
    ensures
        NonoError::ConfigParse(text)@ == ErrorView::ConfigParse(text@),
        NonoError::KeystoreAccess(text)@ == ErrorView::KeystoreAccess(text@),
        NonoError::SecretNotFound(text)@ == ErrorView::SecretNotFound(text@),
        NonoError::ConfigParse(text)@.message() == text@,
        NonoError::KeystoreAccess(text)@.message() == text@,
        NonoError::SecretNotFound(text)@.message() == text@,
{
}

} // verus!
