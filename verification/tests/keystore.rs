//! The behaviour of references, lists and errors, by example.
use keystore::{
    build_mappings_from_list, classify_op_error, is_op_uri, redact_op_uri, request_secret,
    validate_op_uri, SecretRequest, StartReport,
};

#[test]
fn test_build_mappings_from_list() {
    let mappings =
        build_mappings_from_list("openai_api_key,anthropic_api_key").expect("should parse");

    assert_eq!(mappings.len(), 2);
    assert_eq!(
        mappings.get("openai_api_key"),
        Some(&"OPENAI_API_KEY".to_string())
    );
    assert_eq!(
        mappings.get("anthropic_api_key"),
        Some(&"ANTHROPIC_API_KEY".to_string())
    );
}

#[test]
fn test_build_mappings_handles_whitespace() {
    let mappings = build_mappings_from_list(" key1 , key2 , key3 ").expect("should parse");

    assert_eq!(mappings.len(), 3);
    assert!(mappings.contains_key("key1"));
    assert!(mappings.contains_key("key2"));
    assert!(mappings.contains_key("key3"));
}

#[test]
fn test_build_mappings_empty() {
    let mappings = build_mappings_from_list("").expect("should parse");
    assert!(mappings.is_empty());
}

// --- op:// URI support in build_mappings_from_list ---

#[test]
fn test_build_mappings_op_uri_with_var_name() {
    let mappings =
        build_mappings_from_list("op://Development/OpenAI/credential=OPENAI_API_KEY")
            .expect("should parse");

    assert_eq!(mappings.len(), 1);
    assert_eq!(
        mappings.get("op://Development/OpenAI/credential"),
        Some(&"OPENAI_API_KEY".to_string())
    );
}

#[test]
fn test_build_mappings_mixed_keyring_and_op() {
    let mappings = build_mappings_from_list("my_api_key,op://vault/item/field=SECRET_VAR")
        .expect("should parse");

    assert_eq!(mappings.len(), 2);
    assert_eq!(mappings.get("my_api_key"), Some(&"MY_API_KEY".to_string()));
    assert_eq!(
        mappings.get("op://vault/item/field"),
        Some(&"SECRET_VAR".to_string())
    );
}

#[test]
fn test_build_mappings_op_uri_without_var_rejected() {
    // Bare op:// URIs produce garbage env var names when uppercased
    let err = build_mappings_from_list("op://vault/item/field")
        .expect_err("should reject bare op:// URI");
    assert!(
        err.message().contains("explicit variable name"),
        "got: {}",
        err.message()
    );
}

#[test]
fn test_build_mappings_op_uri_empty_var_rejected() {
    // Trailing '=' with no var name
    let err = build_mappings_from_list("op://vault/item/field=")
        .expect_err("should reject empty var name");
    assert!(err.message().contains("no variable name"), "got: {}",
        err.message());
}

#[test]
fn test_build_mappings_op_uri_invalid_uri_rejected() {
    // URI with only 2 segments should fail validation
    let err = build_mappings_from_list("op://vault/item=MY_VAR")
        .expect_err("should reject invalid URI");
    assert!(
        err.message().contains("at least vault/item/field"),
        "got: {}",
        err.message()
    );
}

// --- op:// URI validation tests ---
//
// These tests verify that validate_op_uri correctly accepts valid 1Password
// secret references and rejects malformed or dangerous ones. The rejection
// tests are security-critical: the URI is passed as an argument to
// `op read <uri>`, so we must prevent characters that could alter command
// behavior even though we use Command::new (no shell).

#[test]
fn test_validate_op_uri_valid_3_segments() {
    // Standard 1Password reference: op://vault/item/field
    assert!(validate_op_uri("op://vault/item/field").is_ok());
}

#[test]
fn test_validate_op_uri_valid_4_segments() {
    // Section-qualified reference: op://vault/item/section/field
    // 1Password supports organizing fields into sections within an item
    assert!(validate_op_uri("op://vault/item/section/field").is_ok());
}

#[test]
fn test_validate_op_uri_valid_with_spaces_and_dashes() {
    // 1Password vault and item names commonly contain spaces and dashes
    assert!(validate_op_uri("op://My Vault/My-Item/api-key").is_ok());
}

#[test]
fn test_validate_op_uri_missing_prefix() {
    let err = validate_op_uri("vault/item/field").expect_err("should be rejected");
    assert!(
        err.message().contains("does not start with"),
        "got: {}",
        err.message()
    );
}

#[test]
fn test_validate_op_uri_too_few_segments() {
    // op://vault/item is missing the field segment — `op read` would fail
    // but we reject early to give a clear error message
    let err = validate_op_uri("op://vault/item").expect_err("should be rejected");
    assert!(
        err.message().contains("at least vault/item/field"),
        "got: {}",
        err.message()
    );
}

#[test]
fn test_validate_op_uri_single_segment() {
    let err = validate_op_uri("op://vault").expect_err("should be rejected");
    assert!(
        err.message().contains("at least vault/item/field"),
        "got: {}",
        err.message()
    );
}

#[test]
fn test_validate_op_uri_empty_vault() {
    // Empty vault segment could cause unexpected behavior in `op read`
    let err = validate_op_uri("op:///item/field").expect_err("should be rejected");
    assert!(
        err.message().contains("empty path segment"),
        "got: {}",
        err.message()
    );
}

#[test]
fn test_validate_op_uri_empty_item() {
    let err = validate_op_uri("op://vault//field").expect_err("should be rejected");
    assert!(
        err.message().contains("empty path segment"),
        "got: {}",
        err.message()
    );
}

#[test]
fn test_validate_op_uri_empty_field() {
    // Trailing slash produces an empty final segment
    let err = validate_op_uri("op://vault/item/").expect_err("should be rejected");
    assert!(
        err.message().contains("empty path segment"),
        "got: {}",
        err.message()
    );
}

// --- Injection prevention tests ---
//
// Although we use Command::new (no shell), these characters are still
// rejected as defense-in-depth. A semicolon or pipe in a URI is never
// legitimate and likely indicates an injection attempt.

#[test]
fn test_validate_op_uri_forbidden_semicolon() {
    // Semicolons are shell command separators — reject to prevent
    // injection if the URI is ever accidentally passed through a shell
    let err = validate_op_uri("op://vault/item;rm -rf/field").expect_err("should be rejected");
    assert!(
        err.message().contains("forbidden character"),
        "got: {}",
        err.message()
    );
}

#[test]
fn test_validate_op_uri_forbidden_pipe() {
    // Pipes could chain commands in a shell context
    let err = validate_op_uri("op://vault/item|evil/field").expect_err("should be rejected");
    assert!(
        err.message().contains("forbidden character"),
        "got: {}",
        err.message()
    );
}

#[test]
fn test_validate_op_uri_forbidden_dollar() {
    // Dollar signs enable variable expansion in shell contexts —
    // could leak env vars like $HOME into the `op` argument
    let err = validate_op_uri("op://vault/$HOME/field").expect_err("should be rejected");
    assert!(
        err.message().contains("forbidden character"),
        "got: {}",
        err.message()
    );
}

#[test]
fn test_validate_op_uri_forbidden_backtick() {
    // Backticks trigger command substitution in sh/bash — a classic
    // injection vector where `whoami` would execute as a subprocess
    let err = validate_op_uri("op://vault/`whoami`/field").expect_err("should be rejected");
    assert!(
        err.message().contains("forbidden character"),
        "got: {}",
        err.message()
    );
}

#[test]
fn test_validate_op_uri_forbidden_newline() {
    // Newlines could cause argument splitting or log injection
    let err = validate_op_uri("op://vault/item\n/field").expect_err("should be rejected");
    assert!(
        err.message().contains("forbidden character"),
        "got: {}",
        err.message()
    );
}

#[test]
fn test_validate_op_uri_query_string() {
    // 1Password URIs don't use query strings — their presence suggests
    // confusion with HTTP URLs or an attempt to inject extra parameters
    let err = validate_op_uri("op://vault/item/field?x=y").expect_err("should be rejected");
    assert!(
        err.message().contains("query strings or fragments"),
        "got: {}",
        err.message()
    );
}

#[test]
fn test_validate_op_uri_fragment() {
    let err = validate_op_uri("op://vault/item/field#section").expect_err("should be rejected");
    assert!(
        err.message().contains("query strings or fragments"),
        "got: {}",
        err.message()
    );
}

// --- redact_op_uri tests ---
//
// The field segment (the actual secret name) is masked in logs to avoid
// leaking what secret is being accessed. Vault and item names are kept
// visible for debuggability.

#[test]
fn test_redact_op_uri_3_segments() {
    assert_eq!(
        redact_op_uri("op://MyVault/MyItem/credential"),
        "op://MyVault/MyItem/<redacted>"
    );
}

#[test]
fn test_redact_op_uri_4_segments() {
    // Section-qualified URIs: everything after item is redacted
    assert_eq!(
        redact_op_uri("op://MyVault/MyItem/section/field"),
        "op://MyVault/MyItem/<redacted>"
    );
}

#[test]
fn test_redact_op_uri_malformed() {
    // Malformed URIs get fully redacted — no partial information leak
    assert_eq!(redact_op_uri("op://only"), "op://***");
}

#[test]
fn test_redact_op_uri_not_op() {
    // Non-op:// strings get fully redacted
    assert_eq!(redact_op_uri("keyring_account"), "op://***");
}

// --- classify_op_error tests ---
//
// Verify that `op` CLI stderr messages are mapped to actionable errors
// so users know whether to run `op signin`, fix a typo, or debug network.

#[test]
fn test_classify_op_error_auth_required() {
    let err = classify_op_error(
        "[ERROR] not signed in. Run 'op signin' first.\n",
        "op://vault/item/field",
    );
    let msg = err.message();
    assert!(msg.contains("authentication required"), "got: {}", msg);
    assert!(msg.contains("op signin"), "got: {}", msg);
}

#[test]
fn test_classify_op_error_session_expired() {
    let err = classify_op_error("[ERROR] session expired\n", "op://vault/item/field");
    let msg = err.message();
    assert!(msg.contains("authentication required"), "got: {}", msg);
}

#[test]
fn test_classify_op_error_not_found() {
    // Maps to SecretNotFound so callers can distinguish "auth problem"
    // from "wrong vault/item name"
    let err = classify_op_error(
        "[ERROR] \"item\" not found in vault \"vault\"\n",
        "op://vault/item/field",
    );
    let msg = err.message();
    assert!(msg.contains("not found"), "got: {}", msg);
}

#[test]
fn test_classify_op_error_unknown() {
    // Unrecognized errors fall through to a generic message
    let err = classify_op_error("[ERROR] network timeout\n", "op://vault/item/field");
    let msg = err.message();
    assert!(msg.contains("1Password CLI failed"), "got: {}", msg);
}

// --- is_op_uri tests ---

#[test]
fn test_is_op_uri_positive() {
    assert!(is_op_uri("op://vault/item/field"));
}

#[test]
fn test_is_op_uri_negative() {
    // Bare keyring account names must not be misidentified as 1Password refs
    assert!(!is_op_uri("openai_api_key"));
}

// --- load_secret_by_ref dispatch ---

#[test]
fn test_load_secret_by_ref_dispatches_op() {
    // op:// URIs are routed to the 1Password backend, not to the keyring: a
    // missing `op` program gives an error that is specific to 1Password.
    let result = match request_secret("nono", "op://vault/item/field") {
        Ok(SecretRequest::Op(read)) => read.started(StartReport::Failed {
            not_found: true,
            detail: "No such file or directory (os error 2)".to_string(),
        }),
        Ok(SecretRequest::Keyring(_)) => panic!("routed to the keyring"),
        Err(e) => Err(e),
    };
    assert!(result.is_err());
    let err = match result {
        Ok(_) => panic!("should be rejected"),
        Err(e) => e.message().to_string(),
    };
    assert!(
        err.contains("1Password") || err.contains("op"),
        "expected 1Password error, got: {}",
        err
    );
}
