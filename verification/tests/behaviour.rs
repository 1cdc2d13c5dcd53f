//! Each law at concrete values, each error, and the edges.
use keystore::uri::is_forbidden_char;
use keystore::{
    build_mappings_from_list, build_secret_mappings, classify_op_error, redact_op_uri,
    request_secret, shown_in_log, validate_op_uri, KeyringRead, KeyringReport, NonoError, OpExit, OpOutput,
    OpRead, OpWait, PollReport, SecretBatch, SecretMappings, SecretRequest, StartReport, WaitStep,
    DEFAULT_SERVICE, OP_TIMEOUT_NANOS, POLL_INTERVAL_MILLIS,
};

const REFERENCE: &str = "op://vault/item/field";

fn is_config(error: &NonoError, message: &str) -> bool {
    matches!(error, NonoError::ConfigParse(_)) && error.message() == message
}

fn is_access(error: &NonoError, message: &str) -> bool {
    matches!(error, NonoError::KeystoreAccess(_)) && error.message() == message
}

fn is_not_found(error: &NonoError, message: &str) -> bool {
    matches!(error, NonoError::SecretNotFound(_)) && error.message() == message
}

fn invalid(uri: &str) -> NonoError {
    validate_op_uri(uri).expect_err("should be rejected")
}

fn refused(list: &str) -> NonoError {
    build_mappings_from_list(list).expect_err("should be refused")
}

fn waiting() -> OpWait {
    match OpRead::new(REFERENCE) {
        Ok(read) => match read.started(StartReport::Started) {
            Ok(wait) => wait,
            Err(e) => panic!("{}", e.message()),
        },
        Err(e) => panic!("{}", e.message()),
    }
}

fn ended() -> OpExit {
    match waiting().polled(PollReport::Exited, OP_TIMEOUT_NANOS) {
        WaitStep::Collect { exit } => exit,
        _ => panic!("should collect"),
    }
}

fn output(success: bool, stdout: &[u8], stderr: &[u8]) -> OpOutput {
    OpOutput { success, stdout: stdout.to_vec(), stderr: stderr.to_vec() }
}

fn keyring(account: &str) -> KeyringRead {
    KeyringRead { service: DEFAULT_SERVICE.to_string(), account: account.to_string() }
}

fn keyring_error(report: KeyringReport) -> NonoError {
    match keyring("api_key").finish(report) {
        Ok(_) => panic!("should fail"),
        Err(e) => e,
    }
}

#[test]
fn each_rule_of_a_reference_has_its_message() {
    assert!(is_config(
        &invalid("vault/item/field"),
        "credential reference 'vault/item/field' does not start with 'op://'"
    ));
    assert!(is_config(
        &invalid("op://a/b;c/d"),
        "1Password URI contains forbidden character ';': op://a/b;c/d"
    ));
    assert!(is_config(
        &invalid("op://a/b/c?d"),
        "1Password URI must not contain query strings or fragments: op://a/b/c?d"
    ));
    assert!(is_config(
        &invalid("op://a/b"),
        "1Password URI must have at least vault/item/field segments: op://a/b"
    ));
    assert!(is_config(
        &invalid("op://a//b"),
        "1Password URI has empty path segment: op://a//b"
    ));
}

#[test]
fn the_first_broken_rule_is_reported() {
    assert!(invalid("op://a|b?").message().contains("forbidden character '|'"));
    assert!(invalid("op://$a|b").message().contains("forbidden character '$'"));
    assert!(invalid("op://?").message().contains("query strings or fragments"));
    assert!(invalid("op:///").message().contains("at least vault/item/field"));
    assert!(invalid("").message().contains("does not start with"));
    assert!(invalid("op://").message().contains("at least vault/item/field"));
}

#[test]
fn forbidden_characters_are_shown_as_rust_shows_them() {
    let forbidden = [
        ';', '|', '&', '$', '`', '(', ')', '{', '}', '<', '>', '!', '\\', '"', '\'', '\n', '\r',
        '\0',
    ];
    for code in 0..=0x10ffff_u32 {
        if let Some(c) = char::from_u32(code) {
            assert_eq!(is_forbidden_char(c), forbidden.contains(&c));
        }
    }
    for c in forbidden {
        let uri = format!("op://vault/it{}em/field", c);
        let message = format!("1Password URI contains forbidden character {:?}: {}", c, uri);
        assert!(is_config(&invalid(&uri), &message), "{}", message);
    }
}

#[test]
fn any_number_of_sections_is_accepted() {
    assert!(validate_op_uri("op://a/b/c/d/e/f").is_ok());
    assert!(validate_op_uri("op://Größe/ключ/鍵").is_ok());
    assert!(validate_op_uri("op://a/b=c/d").is_ok());
}

#[test]
fn redaction_hides_the_field() {
    assert_eq!(redact_op_uri("op://v/i/one"), redact_op_uri("op://v/i/two/three"));
    assert_eq!(redact_op_uri("op://v/i/"), "op://v/i/<redacted>");
    assert_eq!(redact_op_uri("op:////"), "op:////<redacted>");
    assert_eq!(redact_op_uri("op://v/i"), "op://***");
    assert_eq!(redact_op_uri(""), "op://***");
    let once = redact_op_uri(REFERENCE);
    assert_eq!(redact_op_uri(&once), once);
    assert_eq!(redact_op_uri("op://***"), "op://***");
}

#[test]
fn logs_do_not_show_the_field() {
    assert_eq!(shown_in_log("op://v/i/one"), "op://v/i/<redacted>");
    assert_eq!(shown_in_log("op://v/i/one/two"), shown_in_log("op://v/i/three"));
    assert_eq!(shown_in_log("op://v"), "op://***");
    assert_eq!(shown_in_log("openai_api_key"), "openai_api_key");
    assert_eq!(shown_in_log(""), "");
}

#[test]
fn entries_of_a_list_have_their_messages() {
    assert!(is_config(
        &refused("op://v/i/f"),
        "1Password credential requires an explicit variable name. \
         Use format: op://vault/item/field=MY_VAR (got 'op://v/i/<redacted>')"
    ));
    assert!(is_config(
        &refused("op://v/i/f="),
        "1Password credential 'op://v/i/<redacted>' has '=' but no variable name. \
         Use format: op://vault/item/field=MY_VAR"
    ));
    assert!(is_config(
        &refused("op://v/i=X"),
        "1Password URI must have at least vault/item/field segments: op://v/i"
    ));
}

#[test]
fn a_missing_variable_is_reported_without_the_field() {
    assert_eq!(refused("op://v/i/one").message(), refused("op://v/i/two").message());
    assert_eq!(refused("op://v/i/one=").message(), refused("op://v/i/two=").message());
}

#[test]
fn the_last_equals_sign_separates_the_variable() {
    let mappings = build_mappings_from_list("op://v/i/f=x=MY_VAR").expect("should parse");
    assert_eq!(mappings.len(), 1);
    assert_eq!(mappings.get("op://v/i/f=x"), Some(&"MY_VAR".to_string()));
}

#[test]
fn a_valid_reference_and_a_variable_are_mapped() {
    let mappings = build_mappings_from_list("op://v/i/f=A").expect("should parse");
    assert_eq!(mappings.len(), 1);
    assert_eq!(mappings.get("op://v/i/f"), Some(&"A".to_string()));
    assert!(!mappings.contains_key("op://v/i"));
    assert_eq!(mappings.get("A"), None);
}

#[test]
fn keyring_names_go_to_upper_case() {
    let mappings = build_mappings_from_list("my-key_9=x,straße").expect("should parse");
    assert_eq!(mappings.len(), 2);
    assert_eq!(mappings.get("my-key_9=x"), Some(&"MY-KEY_9=X".to_string()));
    assert_eq!(mappings.get("straße"), Some(&"STRASSE".to_string()));
    let ascii: String = (1u8..128).map(|b| b as char).filter(|c| *c != ',').collect();
    let mappings = build_mappings_from_list(&ascii).expect("should parse");
    assert_eq!(mappings.get(ascii.trim()), Some(&ascii.trim().to_ascii_uppercase()));
}

#[test]
fn blank_entries_ask_for_nothing() {
    let mappings = build_mappings_from_list(" , a ,,\t, b\u{2003},").expect("should parse");
    assert_eq!(mappings.len(), 2);
    assert_eq!(mappings.get("a"), Some(&"A".to_string()));
    assert_eq!(mappings.get("b"), Some(&"B".to_string()));
    assert!(build_mappings_from_list(" \n ,").expect("should parse").is_empty());
}

#[test]
fn lists_are_read_one_after_the_other() {
    let mappings =
        build_mappings_from_list("op://v/i/f=FIRST,key,op://v/i/f=SECOND").expect("should parse");
    assert_eq!(mappings.len(), 2);
    assert_eq!(mappings.get("op://v/i/f"), Some(&"SECOND".to_string()));
    assert!(refused("op://a/b/c,op://v/i/f=").message().contains("op://a/b/<redacted>"));
    assert!(refused("key,op://v/i/f=X,op://a/b/c").message().contains("explicit variable name"));
}

#[test]
fn the_command_line_counts_before_the_profile() {
    let mut profile = SecretMappings::new();
    profile.insert("key".to_string(), "FROM_PROFILE".to_string());
    profile.insert("other".to_string(), "OTHER_VAR".to_string());
    let combined =
        build_secret_mappings(Some("key,op://v/i/f=X"), &profile).expect("should combine");
    assert_eq!(combined.len(), 3);
    assert_eq!(combined.get("key"), Some(&"KEY".to_string()));
    assert_eq!(combined.get("other"), Some(&"OTHER_VAR".to_string()));
    assert_eq!(combined.get("op://v/i/f"), Some(&"X".to_string()));
    assert_eq!(profile.get("key"), Some(&"FROM_PROFILE".to_string()));

    let unchanged = build_secret_mappings(None, &profile).expect("should combine");
    assert_eq!(unchanged.len(), 2);
    assert_eq!(unchanged.get("key"), Some(&"FROM_PROFILE".to_string()));
    assert!(build_secret_mappings(Some("op://v/i/f"), &profile).is_err());
}

#[test]
fn an_entry_replaces_the_one_before() {
    let mut mappings = SecretMappings::new();
    assert!(mappings.is_empty());
    mappings.insert("a".to_string(), "1".to_string());
    mappings.insert("b".to_string(), "2".to_string());
    mappings.insert("a".to_string(), "3".to_string());
    assert_eq!(mappings.len(), 2);
    assert_eq!(mappings.entry(0), ("a", "3"));
    assert_eq!(mappings.entry(1), ("b", "2"));
    let copy = mappings.clone();
    assert_eq!(copy.len(), 2);
    assert_eq!(copy.get("a"), Some(&"3".to_string()));
}

#[test]
fn errors_of_op_are_classified() {
    assert!(is_access(
        &classify_op_error("  please sign in  \n", REFERENCE),
        "1Password authentication required for 'op://vault/item/<redacted>'. \
         Run 'op signin' or set OP_SERVICE_ACCOUNT_TOKEN. Detail: please sign in"
    ));
    assert!(is_not_found(
        &classify_op_error("could not find it", REFERENCE),
        "1Password item not found: 'op://vault/item/<redacted>'. Detail: could not find it"
    ));
    assert!(is_not_found(
        &classify_op_error("\"x\" isn't an item", REFERENCE),
        "1Password item not found: 'op://vault/item/<redacted>'. Detail: \"x\" isn't an item"
    ));
    assert!(is_access(
        &classify_op_error("", "nonsense"),
        "1Password CLI failed for 'op://***': "
    ));
    // The need to sign in counts before a missing item.
    assert!(matches!(
        classify_op_error("not found: authentication required", REFERENCE),
        NonoError::KeystoreAccess(_)
    ));
    // Nothing of the field shows.
    assert_eq!(
        classify_op_error("oops", "op://v/i/one").message(),
        classify_op_error("oops", "op://v/i/two").message()
    );
}

#[test]
fn op_is_run_with_the_reference_behind_two_dashes() {
    match request_secret(DEFAULT_SERVICE, REFERENCE) {
        Ok(SecretRequest::Op(read)) => {
            assert_eq!(read.command(), vec!["op", "read", "--", REFERENCE]);
        }
        _ => panic!("should go to 1Password"),
    }
    match request_secret(DEFAULT_SERVICE, "op://vault/--help") {
        Err(e) => assert!(e.message().contains("at least vault/item/field")),
        _ => panic!("should be rejected"),
    }
}

#[test]
fn names_without_the_scheme_go_to_the_keyring() {
    match request_secret("service", "op:/vault/item/field") {
        Ok(SecretRequest::Keyring(read)) => {
            assert_eq!(read.service, "service");
            assert_eq!(read.account, "op:/vault/item/field");
        }
        _ => panic!("should go to the keyring"),
    }
}

#[test]
fn a_start_that_fails_is_reported() {
    let failed = |not_found: bool| match OpRead::new(REFERENCE) {
        Ok(read) => match read.started(StartReport::Failed {
            not_found,
            detail: "permission denied".to_string(),
        }) {
            Ok(_) => panic!("should fail"),
            Err(e) => e,
        },
        Err(e) => e,
    };
    assert!(is_access(
        &failed(true),
        "1Password CLI ('op') not found. \
         Install it from https://developer.1password.com/docs/cli/"
    ));
    assert!(is_access(&failed(false), "Could not start the 1Password CLI: permission denied"));
}

#[test]
fn waiting_ends_at_the_time_limit() {
    let limit: u128 = 30_000_000_000;
    match waiting().polled(PollReport::Running { elapsed_nanos: limit - 1 }, OP_TIMEOUT_NANOS) {
        WaitStep::Again { pause_millis, .. } => {
            assert_eq!(pause_millis, POLL_INTERVAL_MILLIS);
            assert_eq!(pause_millis, 100);
        }
        _ => panic!("should wait"),
    }
    for elapsed_nanos in [limit, limit + 1, u128::MAX] {
        match waiting().polled(PollReport::Running { elapsed_nanos }, OP_TIMEOUT_NANOS) {
            WaitStep::Stop { error } => assert!(is_access(
                &error,
                "1Password CLI timed out after 30s. Is 1Password waiting for authentication?"
            )),
            _ => panic!("should stop"),
        }
    }
    for (limit, seconds) in [
        (0, "0"),
        (999_999_999, "0"),
        (1_500_000_000, "1"),
        (u128::MAX, "340282366920938463463374607431"),
    ] {
        match waiting().polled(PollReport::Running { elapsed_nanos: limit }, limit) {
            WaitStep::Stop { error } => {
                let message = format!(
                    "1Password CLI timed out after {}s. Is 1Password waiting for authentication?",
                    seconds
                );
                assert!(is_access(&error, &message), "{}", error.message());
            }
            _ => panic!("should stop"),
        }
    }
    match waiting().polled(PollReport::Failed { detail: "no child".to_string() }, OP_TIMEOUT_NANOS) {
        WaitStep::Stop { error } => {
            assert!(is_access(&error, "Failed to check 1Password CLI status: no child"))
        }
        _ => panic!("should stop"),
    }
}

#[test]
fn op_has_thirty_seconds() {
    let at = |elapsed_nanos: u128| waiting().polled_in_time(PollReport::Running { elapsed_nanos });
    assert!(matches!(at(0), WaitStep::Again { pause_millis: 100, .. }));
    assert!(matches!(at(29_999_999_999), WaitStep::Again { pause_millis: 100, .. }));
    match at(30_000_000_000) {
        WaitStep::Stop { error } => assert!(is_access(
            &error,
            "1Password CLI timed out after 30s. Is 1Password waiting for authentication?"
        )),
        _ => panic!("should stop"),
    }
    assert!(matches!(waiting().polled_in_time(PollReport::Exited), WaitStep::Collect { .. }));
}

#[test]
fn a_secret_comes_back_as_it_is_stored() {
    for (printed, secret) in [
        ("s3cret\n", "s3cret"),
        ("s3cret\r\n", "s3cret"),
        ("two\nlines\n\n", "two\nlines"),
        (" pässword ", " pässword "),
        ("\n", ""),
        ("", ""),
    ] {
        match ended().finish(output(true, printed.as_bytes(), b"ignored")) {
            Ok(read) => assert_eq!(read.as_str(), secret),
            Err(e) => panic!("{}", e.message()),
        }
    }
}

#[test]
fn output_that_is_no_text_is_an_error() {
    match ended().finish(output(true, &[0x61, 0xff], b"")) {
        Ok(_) => panic!("should fail"),
        Err(e) => assert!(is_access(
            &e,
            "1Password returned non-UTF-8 data for 'op://vault/item/<redacted>'"
        )),
    }
}

#[test]
fn a_failed_op_is_explained_by_what_it_printed() {
    match ended().finish(output(false, b"s3cret", b"item not found \xff\n")) {
        Ok(_) => panic!("should fail"),
        Err(e) => assert!(is_not_found(
            &e,
            "1Password item not found: 'op://vault/item/<redacted>'. \
             Detail: item not found \u{fffd}"
        )),
    }
    match ended().finish(output(false, b"", "größer\n".as_bytes())) {
        Ok(_) => panic!("should fail"),
        Err(e) => {
            assert!(is_access(&e, "1Password CLI failed for 'op://vault/item/<redacted>': größer"))
        }
    }
}

#[test]
fn answers_of_the_keyring() {
    match keyring("api_key").finish(KeyringReport::Password { password: "pw\n".to_string() }) {
        Ok(secret) => assert_eq!(secret.as_str(), "pw\n"),
        Err(e) => panic!("{}", e.message()),
    }
    assert!(is_not_found(&keyring_error(KeyringReport::NoEntry), "api_key"));
    assert!(is_access(
        &keyring_error(KeyringReport::Ambiguous { count: 12 }),
        "Multiple entries (12) found for 'api_key' - please resolve manually"
    ));
    assert!(is_access(
        &keyring_error(KeyringReport::Unavailable { detail: "locked".to_string() }),
        "Failed to access keystore for 'api_key': locked"
    ));
    assert!(is_access(
        &keyring_error(KeyringReport::Failed { detail: "denied".to_string() }),
        "Cannot access 'api_key': denied"
    ));
}

#[test]
fn all_secrets_of_a_map_are_loaded() {
    let mappings = build_mappings_from_list("one,two").expect("should parse");
    let mut batch = SecretBatch::new(mappings);
    let mut asked: Vec<String> = Vec::new();
    while let Some((account, _)) = batch.next() {
        let account = account.to_string();
        let result = keyring(&account)
            .finish(KeyringReport::Password { password: format!("secret of {}", account) });
        asked.push(account);
        batch = match batch.record(result) {
            Ok(batch) => batch,
            Err(e) => panic!("{}", e.message()),
        };
    }
    assert_eq!(asked, vec!["one", "two"]);
    let loaded = batch.finish();
    assert_eq!(loaded.len(), 2);
    assert_eq!(loaded[0].env_var, "ONE");
    assert_eq!(loaded[0].value.as_str(), "secret of one");
    assert_eq!(loaded[1].env_var, "TWO");
    assert_eq!(loaded[1].value.as_str(), "secret of two");
}

#[test]
fn the_first_error_ends_the_loading() {
    let mappings = build_mappings_from_list("one,two,three").expect("should parse");
    let batch = SecretBatch::new(mappings);
    let first = keyring("one").finish(KeyringReport::Password { password: "1".to_string() });
    let batch = match batch.record(first) {
        Ok(batch) => batch,
        Err(e) => panic!("{}", e.message()),
    };
    assert_eq!(batch.next(), Some(("two", "TWO")));
    match batch.record(keyring("two").finish(KeyringReport::NoEntry)) {
        Ok(_) => panic!("should fail"),
        Err(e) => assert!(is_not_found(&e, "two")),
    }
    assert!(SecretBatch::new(SecretMappings::new()).finish().is_empty());
}
