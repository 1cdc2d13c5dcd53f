//! Reading a secret with the 1Password command-line program `op`.
//!
//! The stages of a read are types of their own: an [`OpRead`] can be started,
//! which gives an [`OpWait`]; that is polled until it gives an [`OpExit`]; and
//! the output of the program then finishes the read. Running the program is
//! left to the caller, who reports at each stage what happened.
use vstd::prelude::*;

use crate::error::{ErrorView, NonoError};
use crate::secret::Secret;
use crate::text;
use crate::uri;

verus! {

/// How long `op` may take, in nanoseconds. Long enough for a biometric prompt.
pub const OP_TIMEOUT_NANOS: u128 = 30_000_000_000;

/// The pause between two polls of a running `op`, in milliseconds.
pub const POLL_INTERVAL_MILLIS: u64 = 100;

// ---------------------------------------------------------------------------
// Models
// ---------------------------------------------------------------------------

/// What `op` printed says that the user has to sign in.
pub open spec fn asks_for_sign_in(stderr: Seq<char>) -> bool {
    ||| text::contains_text(stderr, "not signed in"@)
    ||| text::contains_text(stderr, "sign in"@)
    ||| text::contains_text(stderr, "authentication required"@)
    ||| text::contains_text(stderr, "session expired"@)
}

/// What `op` printed says that there is no such item.
pub open spec fn reports_missing_item(stderr: Seq<char>) -> bool {
    ||| text::contains_text(stderr, "not found"@)
    ||| text::contains_text(stderr, "could not find"@)
    ||| text::contains_text(stderr, "isn't an item"@)
}

/// The error for an `op` that failed and printed `stderr`.
pub open spec fn op_error(stderr: Seq<char>, reference: Seq<char>) -> ErrorView {
    let shown = uri::redacted(reference);
    let detail = text::trim(stderr);
    if asks_for_sign_in(stderr) {
        ErrorView::KeystoreAccess(
            "1Password authentication required for '"@ + shown
                + "'. Run 'op signin' or set OP_SERVICE_ACCOUNT_TOKEN. Detail: "@ + detail,
        )
    } else if reports_missing_item(stderr) {
        ErrorView::SecretNotFound(
            "1Password item not found: '"@ + shown + "'. Detail: "@ + detail,
        )
    } else {
        ErrorView::KeystoreAccess("1Password CLI failed for '"@ + shown + "': "@ + detail)
    }
}

/// The text that `String::from_utf8_lossy` returns for `bytes`.
pub uninterp spec fn utf8_lossy(bytes: Seq<u8>) -> Seq<char>;

/// What the output of `op` comes to: the secret that it printed, without the
/// line breaks at its end, or an error. `stderr` is what it printed for the
/// user.
pub open spec fn op_outcome(
    reference: Seq<char>,
    success: bool,
    stdout: Seq<u8>,
    stderr: Seq<char>,
) -> Result<Seq<char>, ErrorView> {
    if !success {
        Err(op_error(stderr, reference))
    } else if !vstd::utf8::valid_utf8(stdout) {
        Err(
            ErrorView::KeystoreAccess(
                "1Password returned non-UTF-8 data for '"@ + uri::redacted(reference) + "'"@,
            ),
        )
    } else {
        Ok(text::trim_line_breaks(vstd::utf8::decode_utf8(stdout)))
    }
}

/// The error for an `op` that could not be started.
pub open spec fn start_error(not_found: bool, detail: Seq<char>) -> ErrorView {
    if not_found {
        ErrorView::KeystoreAccess(
            "1Password CLI ('op') not found. Install it from https://developer.1password.com/docs/cli/"@,
        )
    } else {
        ErrorView::KeystoreAccess("Could not start the 1Password CLI: "@ + detail)
    }
}

/// The error for an `op` that took `timeout_nanos` nanoseconds or longer. It
/// gives the whole seconds of the limit.
pub open spec fn timeout_error(timeout_nanos: u128) -> ErrorView {
    ErrorView::KeystoreAccess(
        "1Password CLI timed out after "@ + text::decimal((timeout_nanos / 1_000_000_000) as nat)
            + "s. Is 1Password waiting for authentication?"@,
    )
}

/// The error for an `op` whose state could not be asked for.
pub open spec fn poll_error(detail: Seq<char>) -> ErrorView {
    ErrorView::KeystoreAccess("Failed to check 1Password CLI status: "@ + detail)
}

/// A wait of `elapsed_nanos` nanoseconds has reached its limit.
pub open spec fn is_timed_out(elapsed_nanos: u128, timeout_nanos: u128) -> bool {
    elapsed_nanos >= timeout_nanos
}

// ---------------------------------------------------------------------------
// Calls into the standard library
// ---------------------------------------------------------------------------

/// Calls `String::from_utf8`.
///
/// There is a text exactly when the bytes are valid UTF-8, and it is the one
/// that they encode.
#[verifier::external_body]
fn from_utf8(bytes: Vec<u8>) -> (decoded: Option<String>)
    ensures
        match decoded {
            Some(decoded) => vstd::utf8::valid_utf8(bytes@) && decoded@ == vstd::utf8::decode_utf8(
                bytes@,
            ),
            None => !vstd::utf8::valid_utf8(bytes@),
        },
{
    String::from_utf8(bytes).ok()
}

/// Calls `String::from_utf8_lossy`.
///
/// The result is named by [`utf8_lossy`]. Of valid UTF-8 it is stated that the
/// text is the one that the bytes encode; what stands for invalid bytes is left
/// to the name.
#[verifier::external_body]
fn from_utf8_lossy(bytes: &Vec<u8>) -> (decoded: String)
    ensures
        decoded@ == utf8_lossy(bytes@),
        vstd::utf8::valid_utf8(bytes@) ==> decoded@ == vstd::utf8::decode_utf8(bytes@),
{
    String::from_utf8_lossy(bytes).into_owned()
}

// ---------------------------------------------------------------------------
// Operations
// ---------------------------------------------------------------------------

/// Turn what a failed `op` printed into an error that says what to do.
///
/// The reference is shown redacted.
pub fn classify_op_error(stderr: &str, uri: &str) -> (error: NonoError)
    ensures
        error@ == op_error(stderr@, uri@),
{
    let shown = uri::redact_op_uri(uri);
    let detail = text::trimmed(stderr);
    if text::contains(stderr, "not signed in") || text::contains(stderr, "sign in")
        || text::contains(stderr, "authentication required") || text::contains(
        stderr,
        "session expired",
    ) {
        let mut message = "1Password authentication required for '".to_owned();
        message.append(shown.as_str());
        message.append("'. Run 'op signin' or set OP_SERVICE_ACCOUNT_TOKEN. Detail: ");
        message.append(detail);
        NonoError::KeystoreAccess(message)
    } else if text::contains(stderr, "not found") || text::contains(stderr, "could not find")
        || text::contains(stderr, "isn't an item") {
        let mut message = "1Password item not found: '".to_owned();
        message.append(shown.as_str());
        message.append("'. Detail: ");
        message.append(detail);
        NonoError::SecretNotFound(message)
    } else {
        let mut message = "1Password CLI failed for '".to_owned();
        message.append(shown.as_str());
        message.append("': ");
        message.append(detail);
        NonoError::KeystoreAccess(message)
    }
}

/// A read of a reference that has been found well-formed.
pub struct OpRead {
    uri: String,
}

/// A read whose `op` has been started.
pub struct OpWait {
    uri: String,
}

/// A read whose `op` has ended.
pub struct OpExit {
    uri: String,
}

/// How starting `op` went.
pub enum StartReport {
    /// It runs.
    Started,
    /// It could not be started; `not_found` if there is no such program.
    Failed { not_found: bool, detail: String },
}

/// What polling `op` gave.
pub enum PollReport {
    /// It has ended.
    Exited,
    /// It runs, and has done so for this long.
    Running { elapsed_nanos: u128 },
    /// Its state could not be asked for.
    Failed { detail: String },
}

/// What to do after a poll.
pub enum WaitStep {
    /// Pause for this long, then poll again.
    Again { wait: OpWait, pause_millis: u64 },
    /// Collect the output and finish the read.
    Collect { exit: OpExit },
    /// Kill the program, wait for it to be gone, and give up with the error.
    Stop { error: NonoError },
}

/// What an `op` that has ended left behind.
pub struct OpOutput {
    /// Whether it ended with the status that stands for success.
    pub success: bool,
    /// What it printed.
    pub stdout: Vec<u8>,
    /// What it printed for the user.
    pub stderr: Vec<u8>,
}

impl OpRead {
    /// The reference to read.
    pub closed spec fn uri(&self) -> Seq<char> {
        self.uri@
    }

    #[verifier::type_invariant]
    spec fn inv(&self) -> bool {
        uri::is_valid_op_uri(self.uri@)
    }

    /// A read of `uri`, if that is a well-formed reference.
    pub fn new(uri: &str) -> (read: Result<OpRead, NonoError>)
        ensures
            read is Ok <==> uri::is_valid_op_uri(uri@),
            match read {
                Ok(read) => read.uri() == uri@,
                Err(e) => uri::op_uri_check(uri@) == Err::<(), ErrorView>(e@),
            },
    {
        match uri::validate_op_uri(uri) {
            Ok(()) => Ok(OpRead { uri: uri.to_owned() }),
            Err(e) => Err(e),
        }
    }

    /// The program to run and its arguments. The reference is well-formed, is
    /// an argument of its own and stands behind `--`, so that it cannot be
    /// taken for anything but a reference.
    pub fn command(&self) -> (command: Vec<String>)
        ensures
            command@.map_values(|word: String| word@) == seq![
                "op"@,
                "read"@,
                "--"@,
                self.uri(),
            ],
            uri::is_valid_op_uri(self.uri()),
    {
        proof {
            use_type_invariant(self);
        }
        let mut command: Vec<String> = Vec::new();
        command.push("op".to_owned());
        command.push("read".to_owned());
        command.push("--".to_owned());
        command.push(self.uri.clone());
        command
    }

    /// Go on after the attempt to start `op`.
    pub fn started(self, report: StartReport) -> (next: Result<OpWait, NonoError>)
        ensures
            match (report, next) {
                (StartReport::Started, Ok(wait)) => wait.uri() == self.uri(),
                (StartReport::Failed { not_found, detail }, Err(e)) => e@ == start_error(
                    not_found,
                    detail@,
                ),
                _ => false,
            },
    {
        proof {
            use_type_invariant(&self);
        }
        match report {
            StartReport::Started => Ok(OpWait { uri: self.uri }),
            StartReport::Failed { not_found, detail } => {
                if not_found {
                    Err(
                        NonoError::KeystoreAccess(
                            "1Password CLI ('op') not found. Install it from https://developer.1password.com/docs/cli/".to_owned(),
                        ),
                    )
                } else {
                    let mut message = "Could not start the 1Password CLI: ".to_owned();
                    message.append(detail.as_str());
                    Err(NonoError::KeystoreAccess(message))
                }
            },
        }
    }
}

impl OpWait {
    /// The reference that is being read.
    pub closed spec fn uri(&self) -> Seq<char> {
        self.uri@
    }

    #[verifier::type_invariant]
    spec fn inv(&self) -> bool {
        uri::is_valid_op_uri(self.uri@)
    }

    /// `step` is what is to be done when a poll gives `report` and the whole wait
    /// may take `timeout_nanos` nanoseconds.
    pub open spec fn is_next_step(
        &self,
        report: PollReport,
        timeout_nanos: u128,
        step: WaitStep,
    ) -> bool {
        match report {
            PollReport::Exited => step matches WaitStep::Collect { exit } && exit.uri()
                == self.uri(),
            PollReport::Running { elapsed_nanos } => if is_timed_out(
                elapsed_nanos,
                timeout_nanos,
            ) {
                step matches WaitStep::Stop { error } && error@ == timeout_error(timeout_nanos)
            } else {
                &&& step matches WaitStep::Again { wait, pause_millis }
                &&& wait.uri() == self.uri()
                &&& pause_millis == POLL_INTERVAL_MILLIS
            },
            PollReport::Failed { detail } => step matches WaitStep::Stop { error } && error@
                == poll_error(detail@),
        }
    }

    /// Go on after a poll, with the time that `op` may take.
    pub fn polled_in_time(self, report: PollReport) -> (step: WaitStep)
        ensures
            self.is_next_step(report, OP_TIMEOUT_NANOS, step),
    {
        self.polled(report, OP_TIMEOUT_NANOS)
    }

    /// Go on after a poll, with `timeout_nanos` nanoseconds for the whole wait.
    pub fn polled(self, report: PollReport, timeout_nanos: u128) -> (step: WaitStep)
        ensures
            self.is_next_step(report, timeout_nanos, step),
    {
        proof {
            use_type_invariant(&self);
        }
        match report {
            PollReport::Exited => WaitStep::Collect { exit: OpExit { uri: self.uri } },
            PollReport::Running { elapsed_nanos } => {
                if elapsed_nanos >= timeout_nanos {
                    let mut message = "1Password CLI timed out after ".to_owned();
                    message.append(text::decimal_text(timeout_nanos / 1_000_000_000).as_str());
                    message.append("s. Is 1Password waiting for authentication?");
                    WaitStep::Stop { error: NonoError::KeystoreAccess(message) }
                } else {
                    WaitStep::Again {
                        wait: OpWait { uri: self.uri },
                        pause_millis: POLL_INTERVAL_MILLIS,
                    }
                }
            },
            PollReport::Failed { detail } => {
                let mut message = "Failed to check 1Password CLI status: ".to_owned();
                message.append(detail.as_str());
                WaitStep::Stop { error: NonoError::KeystoreAccess(message) }
            },
        }
    }
}

impl OpExit {
    /// The reference that was read.
    pub closed spec fn uri(&self) -> Seq<char> {
        self.uri@
    }

    #[verifier::type_invariant]
    spec fn inv(&self) -> bool {
        uri::is_valid_op_uri(self.uri@)
    }

    /// The secret that `op` printed, or the error that its output comes to. What
    /// a failed `op` printed for the user is taken as it stands where it is valid
    /// UTF-8.
    pub fn finish(self, output: OpOutput) -> (read: Result<Secret, NonoError>)
        ensures
            match read {
                Ok(secret) => op_outcome(
                    self.uri(),
                    output.success,
                    output.stdout@,
                    utf8_lossy(output.stderr@),
                ) == Ok::<Seq<char>, ErrorView>(secret@),
                Err(e) => op_outcome(
                    self.uri(),
                    output.success,
                    output.stdout@,
                    utf8_lossy(output.stderr@),
                ) == Err::<Seq<char>, ErrorView>(e@),
            },
            !output.success && vstd::utf8::valid_utf8(output.stderr@) ==> utf8_lossy(
                output.stderr@,
            ) == vstd::utf8::decode_utf8(output.stderr@),
    {
        if !output.success {
            let stderr = from_utf8_lossy(&output.stderr);
            return Err(classify_op_error(stderr.as_str(), self.uri.as_str()));
        }
        match from_utf8(output.stdout) {
            Some(raw) => {
                let text = text::without_line_breaks(raw.as_str()).to_owned();
                Ok(Secret::new(text))
            },
            None => {
                let mut message = "1Password returned non-UTF-8 data for '".to_owned();
                message.append(uri::redact_op_uri(self.uri.as_str()).as_str());
                message.append("'");
                Err(NonoError::KeystoreAccess(message))
            },
        }
    }
}

// ---------------------------------------------------------------------------
// Laws
// ---------------------------------------------------------------------------

/// A secret comes back as it is stored: `op` prints it with line breaks behind
/// it, and what is read is the secret, as long as that does not itself end in
/// a line break.
pub proof fn law_secret_read_back(
    reference: Seq<char>,
    secret: Seq<char>,
    breaks: Seq<char>,
    stderr: Seq<char>,
)
    requires
        secret.len() > 0 ==> secret.last() != '\n' && secret.last() != '\r',
        forall|i: int| 0 <= i < breaks.len() ==> (#[trigger] breaks[i]) == '\n' || breaks[i] == '\r',
    ensures
        op_outcome(reference, true, vstd::utf8::encode_utf8(secret + breaks), stderr) == Ok::<
            Seq<char>,
            ErrorView,
        >(secret),
{
    vstd::utf8::encode_utf8_valid_utf8(secret + breaks);
    vstd::utf8::encode_utf8_decode_utf8(secret + breaks);
    text::law_trim_line_breaks(secret, breaks);
}

/// A secret that was read does not end in a line break.
pub proof fn law_secret_ends_in_no_line_break(
    reference: Seq<char>,
    success: bool,
    stdout: Seq<u8>,
    stderr: Seq<char>,
)
    ensures
        op_outcome(reference, success, stdout, stderr) matches Ok(secret) ==> secret.len() == 0
            || (secret.last() != '\n' && secret.last() != '\r'),
{
    text::law_trim_line_breaks_exact(vstd::utf8::decode_utf8(stdout));
}

/// An error for what `op` did says of the reference what its redacted form
/// says, and no more: for two references with the same redacted form it is the
/// same error.
pub proof fn law_errors_hide_field(
    a: Seq<char>,
    b: Seq<char>,
    success: bool,
    stdout: Seq<u8>,
    stderr: Seq<char>,
)
    requires
        uri::redacted(a) == uri::redacted(b),
    ensures
        op_error(stderr, a) == op_error(stderr, b),
        op_outcome(a, success, stdout, stderr) == op_outcome(b, success, stdout, stderr),
{
}

/// A missing item is told apart from the need to sign in: the error is
/// `SecretNotFound` exactly when `op` reports a missing item and does not ask
/// for a sign-in.
pub proof fn law_missing_item_told_apart(stderr: Seq<char>, reference: Seq<char>)
    ensures
        op_error(stderr, reference) is SecretNotFound <==> reports_missing_item(stderr)
            && !asks_for_sign_in(stderr),
{
}

/// A wait that has reached its limit stays past it, so that no later poll goes
/// on waiting.
pub proof fn law_time_limit_is_final(earlier: u128, later: u128, timeout_nanos: u128)
    requires
        earlier <= later,
        is_timed_out(earlier, timeout_nanos),
    ensures
        is_timed_out(later, timeout_nanos),
{
}

/// What is read is what `op` printed, up to the line breaks at its end: the
/// printed text is the secret and then line feeds and carriage returns alone.
pub proof fn law_secret_is_what_was_printed(
    reference: Seq<char>,
    printed: Seq<char>,
    stderr: Seq<char>,
)
    ensures
        op_outcome(reference, true, vstd::utf8::encode_utf8(printed), stderr) matches Ok(secret) && {
            &&& secret.len() <= printed.len()
            &&& forall|i: int| 0 <= i < secret.len() ==> #[trigger] secret[i] == printed[i]
            &&& forall|i: int|
                secret.len() <= i < printed.len() ==> (#[trigger] printed[i]) == '\n' || printed[i]
                    == '\r'
        },
{
    vstd::utf8::encode_utf8_valid_utf8(printed);
    vstd::utf8::encode_utf8_decode_utf8(printed);
    text::law_trim_line_breaks_exact(printed);
    let secret = text::trim_line_breaks(printed);
    assert forall|i: int| 0 <= i < secret.len() implies #[trigger] secret[i] == printed[i] by {
        assert(printed.subrange(0, secret.len() as int)[i] == printed[i]);
    }
    assert forall|i: int| secret.len() <= i < printed.len() implies (#[trigger] printed[i]) == '\n'
        || printed[i] == '\r' by {
        assert(text::is_line_break(printed[i]));
    }
}

/// A failed `op` gives no secret, whatever it printed, and neither does one
/// that printed what is no text. A successful one that printed text always
/// gives a secret.
pub proof fn law_when_a_secret_is_read(
    reference: Seq<char>,
    success: bool,
    stdout: Seq<u8>,
    stderr: Seq<char>,
)
    ensures
        op_outcome(reference, success, stdout, stderr) is Ok <==> success
            && vstd::utf8::valid_utf8(stdout),
        !success ==> op_outcome(reference, success, stdout, stderr) == Err::<Seq<char>, _>(
            op_error(stderr, reference),
        ),
        success && !vstd::utf8::valid_utf8(stdout) ==> op_outcome(
            reference,
            success,
            stdout,
            stderr,
        ) == Err::<Seq<char>, _>(
            ErrorView::KeystoreAccess(
                "1Password returned non-UTF-8 data for '"@ + uri::redacted(reference) + "'"@,
            ),
        ),
{
}

/// Whenever `op` prints one of the phrases that ask for a sign-in, wherever it
/// stands, the error is that authentication is required.
pub proof fn law_sign_in_required(
    before: Seq<char>,
    phrase: Seq<char>,
    after: Seq<char>,
    reference: Seq<char>,
)
    requires
        phrase == "not signed in"@ || phrase == "sign in"@ || phrase
            == "authentication required"@ || phrase == "session expired"@,
    ensures
        op_error(before + phrase + after, reference) == ErrorView::KeystoreAccess(
            "1Password authentication required for '"@ + uri::redacted(reference)
                + "'. Run 'op signin' or set OP_SERVICE_ACCOUNT_TOKEN. Detail: "@ + text::trim(
                before + phrase + after,
            ),
        ),
{
    text::law_contains_what_was_put_in(before, phrase, after);
}

/// Whenever `op` prints one of the phrases for a missing item, wherever it
/// stands, and none that asks for a sign-in, the error is that the item was not
/// found.
pub proof fn law_missing_item(
    before: Seq<char>,
    phrase: Seq<char>,
    after: Seq<char>,
    reference: Seq<char>,
)
    requires
        phrase == "not found"@ || phrase == "could not find"@ || phrase == "isn't an item"@,
        !text::contains_text(before + phrase + after, "not signed in"@),
        !text::contains_text(before + phrase + after, "sign in"@),
        !text::contains_text(before + phrase + after, "authentication required"@),
        !text::contains_text(before + phrase + after, "session expired"@),
    ensures
        op_error(before + phrase + after, reference) == ErrorView::SecretNotFound(
            "1Password item not found: '"@ + uri::redacted(reference) + "'. Detail: "@ + text::trim(
                before + phrase + after,
            ),
        ),
{
    text::law_contains_what_was_put_in(before, phrase, after);
}

/// If `op` prints none of the phrases, the error is that it failed.
pub proof fn law_other_failure(stderr: Seq<char>, reference: Seq<char>)
    requires
        !text::contains_text(stderr, "not signed in"@),
        !text::contains_text(stderr, "sign in"@),
        !text::contains_text(stderr, "authentication required"@),
        !text::contains_text(stderr, "session expired"@),
        !text::contains_text(stderr, "not found"@),
        !text::contains_text(stderr, "could not find"@),
        !text::contains_text(stderr, "isn't an item"@),
    ensures
        op_error(stderr, reference) == ErrorView::KeystoreAccess(
            "1Password CLI failed for '"@ + uri::redacted(reference) + "': "@ + text::trim(stderr),
        ),
{
}

/// The error for a start that failed: a program that is not there is named as
/// such, with where to get it; any other failure is told with its detail.
pub proof fn law_start_error(detail: Seq<char>)
    ensures
        start_error(true, detail) == ErrorView::KeystoreAccess(
            "1Password CLI ('op') not found. Install it from https://developer.1password.com/docs/cli/"@,
        ),
        start_error(false, detail) == ErrorView::KeystoreAccess(
            "Could not start the 1Password CLI: "@ + detail,
        ),
{
}

/// The program may take thirty seconds and is polled ten times a second.
pub proof fn law_limits()
    ensures
        OP_TIMEOUT_NANOS == 30 * 1000 * 1000 * 1000,
        POLL_INTERVAL_MILLIS * 10 == 1000,
{
}

/// After a poll: a program that has ended is collected; one that runs is
/// waited for as long as less than the limit has gone by, and stopped from then
/// on; one that cannot be asked is stopped. The reference stays the same.
pub proof fn law_wait(wait: OpWait, report: PollReport, timeout_nanos: u128, step: WaitStep)
    requires
        wait.is_next_step(report, timeout_nanos, step),
    ensures
        step is Collect <==> report is Exited,
        step is Again <==> report is Running && report->elapsed_nanos < timeout_nanos,
        step is Stop <==> report is Failed || (report is Running && timeout_nanos
            <= report->elapsed_nanos),
        step matches WaitStep::Collect { exit } ==> exit.uri() == wait.uri(),
        step matches WaitStep::Again { wait: next, pause_millis } ==> next.uri() == wait.uri()
            && pause_millis == 100,
        step matches WaitStep::Stop { error } ==> error@ == (match report {
            PollReport::Failed { detail } => ErrorView::KeystoreAccess(
                "Failed to check 1Password CLI status: "@ + detail@,
            ),
            _ => ErrorView::KeystoreAccess(
                "1Password CLI timed out after "@ + text::decimal(
                    (timeout_nanos / 1_000_000_000) as nat,
                ) + "s. Is 1Password waiting for authentication?"@,
            ),
        }),
{
}

} // verus!
