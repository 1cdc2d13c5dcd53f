//! Loading secrets from where they are kept.
//!
//! A reference with the 1Password scheme is read with `op`; any other is the
//! name of an account in the system keyring. Asking the keyring and running
//! `op` are left to the caller, who reports what came of it.
use vstd::prelude::*;

use crate::error::{ErrorView, NonoError};
use crate::mappings;
use crate::mappings::SecretMappings;
use crate::op::OpRead;
use crate::secret::{LoadedSecret, Secret};
use crate::text;
use crate::uri;

verus! {

/// The service under which secrets are kept in the keyring, if none is given.
pub const DEFAULT_SERVICE: &'static str = "nono";

/// A question to the system keyring.
pub struct KeyringRead {
    /// The service that keeps the secret.
    pub service: String,
    /// The account that the secret belongs to.
    pub account: String,
}

/// What asking the keyring gave.
pub enum KeyringReport {
    /// The keyring could not be reached.
    Unavailable { detail: String },
    /// The password of the account.
    Password { password: String },
    /// There is no such account.
    NoEntry,
    /// There are this many accounts that fit.
    Ambiguous { count: usize },
    /// The keyring refused, or something else went wrong.
    Failed { detail: String },
}

/// What the answer of the keyring comes to.
pub open spec fn keyring_outcome(account: Seq<char>, report: KeyringReport) -> Result<
    Seq<char>,
    ErrorView,
> {
    match report {
        KeyringReport::Unavailable { detail } => Err(
            ErrorView::KeystoreAccess(
                "Failed to access keystore for '"@ + account + "': "@ + detail@,
            ),
        ),
        KeyringReport::Password { password } => Ok(password@),
        KeyringReport::NoEntry => Err(ErrorView::SecretNotFound(account)),
        KeyringReport::Ambiguous { count } => Err(
            ErrorView::KeystoreAccess(
                "Multiple entries ("@ + text::decimal(count as nat) + ") found for '"@ + account
                    + "' - please resolve manually"@,
            ),
        ),
        KeyringReport::Failed { detail } => Err(
            ErrorView::KeystoreAccess("Cannot access '"@ + account + "': "@ + detail@),
        ),
    }
}

impl KeyringRead {
    /// The secret that the keyring holds, or the error that its answer comes to.
    pub fn finish(self, report: KeyringReport) -> (read: Result<Secret, NonoError>)
        ensures
            match read {
                Ok(secret) => keyring_outcome(self.account@, report) == Ok::<Seq<char>, ErrorView>(
                    secret@,
                ),
                Err(e) => keyring_outcome(self.account@, report) == Err::<Seq<char>, ErrorView>(
                    e@,
                ),
            },
            read is Ok <==> report is Password,
            report matches KeyringReport::Password { password } ==> read matches Ok(secret)
                && secret@ == password@,
    {
        let account = self.account.as_str();
        match report {
            KeyringReport::Unavailable { detail } => {
                let mut message = "Failed to access keystore for '".to_owned();
                message.append(account);
                message.append("': ");
                message.append(detail.as_str());
                Err(NonoError::KeystoreAccess(message))
            },
            KeyringReport::Password { password } => Ok(Secret::new(password)),
            KeyringReport::NoEntry => Err(NonoError::SecretNotFound(account.to_owned())),
            KeyringReport::Ambiguous { count } => {
                let mut message = "Multiple entries (".to_owned();
                message.append(text::decimal_text(count as u128).as_str());
                message.append(") found for '");
                message.append(account);
                message.append("' - please resolve manually");
                Err(NonoError::KeystoreAccess(message))
            },
            KeyringReport::Failed { detail } => {
                let mut message = "Cannot access '".to_owned();
                message.append(account);
                message.append("': ");
                message.append(detail.as_str());
                Err(NonoError::KeystoreAccess(message))
            },
        }
    }
}

/// Where to ask for a secret.
pub enum SecretRequest {
    /// The system keyring.
    Keyring(KeyringRead),
    /// 1Password.
    Op(OpRead),
}

/// Begin to load the secret that `credential_ref` stands for.
///
/// A reference that starts with `op://` goes to 1Password, and has to be
/// well-formed. Any other goes to the keyring, under `service`.
#[must_use]
pub fn request_secret(service: &str, credential_ref: &str) -> (request: Result<
    SecretRequest,
    NonoError,
>)
    ensures
        if uri::has_op_prefix(credential_ref@) {
            match request {
                Ok(SecretRequest::Op(read)) => {
                    &&& uri::is_valid_op_uri(credential_ref@)
                    &&& read.uri() == credential_ref@
                },
                Ok(SecretRequest::Keyring(_)) => false,
                Err(e) => {
                    &&& !uri::is_valid_op_uri(credential_ref@)
                    &&& uri::op_uri_check(credential_ref@) == Err::<(), ErrorView>(e@)
                },
            }
        } else {
            &&& request matches Ok(SecretRequest::Keyring(read))
            &&& read.service@ == service@
            &&& read.account@ == credential_ref@
        },
        "op://"@.is_prefix_of(credential_ref@) ==> !(request matches Ok(SecretRequest::Keyring(_))),
        !"op://"@.is_prefix_of(credential_ref@) ==> {
            &&& request matches Ok(SecretRequest::Keyring(read))
            &&& read.service@ == service@
            &&& read.account@ == credential_ref@
        },
{
    if uri::is_op_uri(credential_ref) {
        match OpRead::new(credential_ref) {
            Ok(read) => Ok(SecretRequest::Op(read)),
            Err(e) => Err(e),
        }
    } else {
        Ok(
            SecretRequest::Keyring(
                KeyringRead {
                    service: service.to_owned(),
                    account: credential_ref.to_owned(),
                },
            ),
        )
    }
}

/// The loading of all secrets of a map, one after the other, until one fails.
pub struct SecretBatch {
    mappings: SecretMappings,
    loaded: Vec<LoadedSecret>,
}

/// What the secrets say.
pub open spec fn loaded_views(loaded: Seq<LoadedSecret>) -> Seq<(Seq<char>, Seq<char>)> {
    loaded.map_values(|secret: LoadedSecret| secret@)
}

/// What is loaded after one more result: the secret, with the variable of the
/// reference that was next, joins the others; an error takes the place of all.
pub open spec fn recorded(
    wanted: Seq<(Seq<char>, Seq<char>)>,
    loaded: Seq<(Seq<char>, Seq<char>)>,
    result: Result<Seq<char>, ErrorView>,
) -> Result<Seq<(Seq<char>, Seq<char>)>, ErrorView> {
    match result {
        Ok(secret) => Ok(loaded.push((wanted[loaded.len() as int].1, secret))),
        Err(e) => Err(e),
    }
}

/// What is loaded after all of `results`, from the first reference on.
pub open spec fn all_recorded(
    wanted: Seq<(Seq<char>, Seq<char>)>,
    results: Seq<Result<Seq<char>, ErrorView>>,
) -> Result<Seq<(Seq<char>, Seq<char>)>, ErrorView>
    decreases results.len(),
{
    if results.len() == 0 {
        Ok(Seq::empty())
    } else {
        match all_recorded(wanted, results.drop_last()) {
            Ok(loaded) => recorded(wanted, loaded, results.last()),
            Err(e) => Err(e),
        }
    }
}

/// What a result of loading says.
pub open spec fn result_view(result: Result<Secret, NonoError>) -> Result<Seq<char>, ErrorView> {
    match result {
        Ok(secret) => Ok(secret@),
        Err(e) => Err(e@),
    }
}

impl SecretBatch {
    /// The references to load and their variables, in order.
    pub closed spec fn wanted(&self) -> Seq<(Seq<char>, Seq<char>)> {
        self.mappings.pairs()
    }

    /// Variables and secrets that were loaded, in order.
    pub closed spec fn loaded(&self) -> Seq<(Seq<char>, Seq<char>)> {
        loaded_views(self.loaded@)
    }

    /// The secrets loaded so far belong to the first references, in order.
    #[verifier::type_invariant]
    spec fn inv(&self) -> bool {
        &&& self.loaded().len() <= self.wanted().len()
        &&& forall|i: int|
            0 <= i < self.loaded().len() ==> (#[trigger] self.loaded()[i]).0 == self.wanted()[i].1
    }

    /// Begin to load the secrets of `mappings`: of each reference in the map,
    /// once.
    pub fn new(mappings: SecretMappings) -> (batch: SecretBatch)
        ensures
            batch.wanted() == mappings.pairs(),
            mappings::map_of(batch.wanted()) == mappings@,
            mappings::distinct_keys(batch.wanted()),
            batch.loaded().len() == 0,
    {
        let loaded: Vec<LoadedSecret> = Vec::with_capacity(mappings.len());
        SecretBatch { mappings, loaded }
    }

    /// The reference to load next and its variable, if one is left.
    pub fn next(&self) -> (pair: Option<(&str, &str)>)
        ensures
            match pair {
                Some((reference, env_var)) => {
                    &&& self.loaded().len() < self.wanted().len()
                    &&& (reference@, env_var@) == self.wanted()[self.loaded().len() as int]
                },
                None => self.loaded().len() == self.wanted().len(),
            },
    {
        proof {
            use_type_invariant(self);
        }
        let at = self.loaded.len();
        if at < self.mappings.len() {
            Some(self.mappings.entry(at))
        } else {
            None
        }
    }

    /// Record what loading the next reference gave. An error ends the loading.
    pub fn record(self, result: Result<Secret, NonoError>) -> (next: Result<SecretBatch, NonoError>)
        requires
            self.loaded().len() < self.wanted().len(),
        ensures
            match next {
                Ok(batch) => {
                    &&& batch.wanted() == self.wanted()
                    &&& recorded(self.wanted(), self.loaded(), result_view(result)) == Ok::<
                        _,
                        ErrorView,
                    >(batch.loaded())
                },
                Err(e) => recorded(self.wanted(), self.loaded(), result_view(result)) == Err::<
                    Seq<(Seq<char>, Seq<char>)>,
                    _,
                >(e@),
            },
            result matches Ok(secret) ==> {
                &&& next matches Ok(batch)
                &&& batch.loaded() == self.loaded().push(
                    (self.wanted()[self.loaded().len() as int].1, secret@),
                )
            },
            result matches Err(e) ==> next == Err::<SecretBatch, _>(e),
    {
        proof {
            use_type_invariant(&self);
        }
        match result {
            Ok(value) => {
                let env_var = self.mappings.entry(self.loaded.len()).1.to_owned();
                let mut loaded = self.loaded;
                let ghost before = loaded@;
                let ghost secret = (env_var@, value@);
                loaded.push(LoadedSecret { env_var, value });
                assert(loaded_views(loaded@) == loaded_views(before).push(secret));
                Ok(SecretBatch { mappings: self.mappings, loaded })
            },
            Err(e) => Err(e),
        }
    }

    /// The secrets, once all are loaded: one for each reference, in order, with
    /// the variable that the reference is mapped to.
    pub fn finish(self) -> (loaded: Vec<LoadedSecret>)
        requires
            self.loaded().len() == self.wanted().len(),
        ensures
            loaded_views(loaded@) == self.loaded(),
            forall|i: int|
                0 <= i < loaded@.len() ==> {
                    &&& (#[trigger] loaded@[i]).env_var@ == self.loaded()[i].0
                    &&& loaded@[i].value@ == self.loaded()[i].1
                },
            loaded@.len() == self.wanted().len(),
            forall|i: int|
                0 <= i < loaded@.len() ==> (#[trigger] loaded@[i]).env_var@ == self.wanted()[i].1,
    {
        proof {
            use_type_invariant(&self);
            assert forall|i: int| 0 <= i < self.loaded@.len() implies (
            #[trigger] self.loaded@[i]).env_var@ == self.wanted()[i].1 by {
                assert(self.loaded()[i].0 == self.loaded@[i].env_var@);
            }
        }
        self.loaded
    }
}

// ---------------------------------------------------------------------------
// Laws
// ---------------------------------------------------------------------------

/// Loading gives all secrets or the first error: it succeeds exactly when each
/// reference loads, and then gives each secret with the variable of its
/// reference, in order; else the error is that of the first reference that
/// does not load.
pub proof fn law_all_secrets_or_first_error(
    wanted: Seq<(Seq<char>, Seq<char>)>,
    results: Seq<Result<Seq<char>, ErrorView>>,
)
    requires
        results.len() <= wanted.len(),
    ensures
        match all_recorded(wanted, results) {
            Ok(loaded) => {
                &&& loaded.len() == results.len()
                &&& forall|i: int|
                    0 <= i < results.len() ==> (#[trigger] results[i]) == Ok::<_, ErrorView>(
                        loaded[i].1,
                    ) && loaded[i].0 == wanted[i].1
            },
            Err(e) => exists|i: int|
                {
                    &&& 0 <= i < results.len()
                    &&& #[trigger] results[i] == Err::<Seq<char>, _>(e)
                    &&& forall|j: int| 0 <= j < i ==> (#[trigger] results[j]) is Ok
                },
        },
    decreases results.len(),
{
    if results.len() > 0 {
        let rest = results.drop_last();
        let last = results.len() - 1;
        law_all_secrets_or_first_error(wanted, rest);
        assert forall|i: int| 0 <= i < last implies rest[i] == results[i] by {}
        match all_recorded(wanted, rest) {
            Ok(loaded) => {
                assert forall|i: int| 0 <= i < last implies (#[trigger] results[i]) == Ok::<
                    _,
                    ErrorView,
                >(loaded[i].1) && loaded[i].0 == wanted[i].1 by {
                    assert(rest[i] == results[i]);
                }
                if let Err(e) = results[last] {
                    assert(results[last] == Err::<Seq<char>, _>(e));
                }
            },
            Err(e) => {
                let i = choose|i: int|
                    {
                        &&& 0 <= i < rest.len()
                        &&& #[trigger] rest[i] == Err::<Seq<char>, _>(e)
                        &&& forall|j: int| 0 <= j < i ==> (#[trigger] rest[j]) is Ok
                    };
                assert(results[i] == Err::<Seq<char>, _>(e));
                assert forall|j: int| 0 <= j < i implies (#[trigger] results[j]) is Ok by {
                    assert(rest[j] == results[j]);
                }
            },
        }
    }
}

/// A password that the keyring holds comes back unchanged, and every other
/// answer is an error that names the account.
pub proof fn law_keyring_outcome(account: Seq<char>, report: KeyringReport)
    ensures
        keyring_outcome(account, report) is Ok <==> report is Password,
        report matches KeyringReport::Password { password } ==> keyring_outcome(account, report)
            == Ok::<_, ErrorView>(password@),
        report is NoEntry ==> keyring_outcome(account, report) == Err::<Seq<char>, _>(
            ErrorView::SecretNotFound(account),
        ),
        report matches KeyringReport::Unavailable { detail } ==> keyring_outcome(account, report)
            == Err::<Seq<char>, _>(
            ErrorView::KeystoreAccess(
                "Failed to access keystore for '"@ + account + "': "@ + detail@,
            ),
        ),
        report matches KeyringReport::Ambiguous { count } ==> keyring_outcome(account, report)
            == Err::<Seq<char>, _>(
            ErrorView::KeystoreAccess(
                "Multiple entries ("@ + text::decimal(count as nat) + ") found for '"@ + account
                    + "' - please resolve manually"@,
            ),
        ),
        report matches KeyringReport::Failed { detail } ==> keyring_outcome(account, report)
            == Err::<Seq<char>, _>(
            ErrorView::KeystoreAccess("Cannot access '"@ + account + "': "@ + detail@),
        ),
{
}

/// The service that is asked, if none is given, is `nono`.
pub proof fn law_default_service()
    ensures
        DEFAULT_SERVICE@ == seq!['n', 'o', 'n', 'o'],
{
    reveal_strlit("nono");
}

/// A batch is one step per result: what is loaded after one result more is
/// what `recorded` says, and an error stays.
pub proof fn law_recorded(
    wanted: Seq<(Seq<char>, Seq<char>)>,
    loaded: Seq<(Seq<char>, Seq<char>)>,
    secret: Seq<char>,
    error: ErrorView,
)
    requires
        loaded.len() < wanted.len(),
    ensures
        recorded(wanted, loaded, Ok(secret)) matches Ok(more) && {
            &&& more.len() == loaded.len() + 1
            &&& more.take(loaded.len() as int) == loaded
            &&& more.last().0 == wanted[loaded.len() as int].1
            &&& more.last().1 == secret
        },
        recorded(wanted, loaded, Err(error)) == Err::<Seq<(Seq<char>, Seq<char>)>, _>(error),
{
    assert(loaded.push((wanted[loaded.len() as int].1, secret)).take(loaded.len() as int)
        == loaded);
}

/// What a loaded secret says is its variable and its text, and what a result
/// says is the text of the secret or what the error says.
pub proof fn law_loaded_views(loaded: Seq<LoadedSecret>, result: Result<Secret, NonoError>)
    ensures
        loaded_views(loaded).len() == loaded.len(),
        forall|i: int|
            0 <= i < loaded.len() ==> (#[trigger] loaded_views(loaded)[i]) == (
                loaded[i].env_var@,
                loaded[i].value@,
            ),
        result matches Ok(secret) ==> result_view(result) == Ok::<_, ErrorView>(secret@),
        result matches Err(e) ==> result_view(result) == Err::<Seq<char>, _>(e@),
{
}

} // verus!
