//! Secrets in memory.
use vstd::prelude::*;
use zeroize::Zeroizing;

verus! {

/// The text of a secret.
///
/// It is held in a `zeroize::Zeroizing<String>`, which overwrites the text when
/// the secret is dropped. The overwriting is not stated in any contract here:
/// what memory holds after a value is gone has no model.
#[verifier::external_body]
pub struct Secret {
    text: Zeroizing<String>,
}

/// The text that a secret holds.
pub uninterp spec fn secret_text(secret: Secret) -> Seq<char>;

impl View for Secret {
    type V = Seq<char>;

    open spec fn view(&self) -> Seq<char> {
        secret_text(*self)
    }
}

impl Secret {
    /// Calls `zeroize::Zeroizing::new`.
    ///
    /// The secret holds the text that was moved into it.
    #[verifier::external_body]
    pub(crate) fn new(text: String) -> (secret: Secret)
        ensures
            secret_text(secret) == text@,
    {
        Secret { text: Zeroizing::new(text) }
    }

    /// Calls `Deref::deref` of `zeroize::Zeroizing`.
    ///
    /// The text is the one that the secret holds.
    #[verifier::external_body]
    fn inner(&self) -> (text: &String)
        ensures
            text@ == secret_text(*self),
    {
        &self.text
    }

    /// The text of the secret.
    pub fn as_str(&self) -> (text: &str)
        ensures
            text@ == self@,
    {
        self.inner().as_str()
    }
}

/// A secret that was loaded, and the environment variable that it is for.
pub struct LoadedSecret {
    /// The name of the environment variable.
    pub env_var: String,
    /// The secret, overwritten in memory when it is dropped.
    pub value: Secret,
}

impl View for LoadedSecret {
    type V = (Seq<char>, Seq<char>);

    /// Variable name and secret.
    open spec fn view(&self) -> (Seq<char>, Seq<char>) {
        (self.env_var@, self.value@)
    }
}

} // verus!
