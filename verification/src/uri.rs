//! 1Password secret references: `op://vault/item/field`.
use vstd::prelude::*;

use crate::error::{ErrorView, NonoError};
use crate::text;

verus! {

/// The scheme that marks a credential reference as a 1Password reference.
pub const OP_URI_PREFIX: &'static str = "op://";

/// `reference` carries the 1Password scheme.
pub open spec fn has_op_prefix(reference: Seq<char>) -> bool {
    OP_URI_PREFIX@.is_prefix_of(reference)
}

/// What follows the scheme.
pub open spec fn op_path(uri: Seq<char>) -> Seq<char> {
    uri.skip(OP_URI_PREFIX@.len() as int)
}

/// The parts of the path: vault, item, then the sections and the field.
pub open spec fn op_segments(uri: Seq<char>) -> Seq<Seq<char>> {
    text::split(op_path(uri), '/')
}

/// The characters that no path may hold, because a shell gives them a meaning
/// or because they end a line or an argument.
pub open spec fn forbidden_chars() -> Seq<char> {
    seq![
        ';', '|', '&', '$', '`', '(', ')', '{', '}', '<', '>', '!', '\\', '"', '\'', '\n', '\r',
        '\0',
    ]
}

/// `c` is one of the forbidden characters.
pub open spec fn is_forbidden(c: char) -> bool {
    forbidden_chars().contains(c)
}

/// A well-formed reference: the scheme, no forbidden character, neither a
/// query string nor a fragment, and at least vault, item and field, none of
/// the segments empty.
pub open spec fn is_valid_op_uri(uri: Seq<char>) -> bool {
    &&& has_op_prefix(uri)
    &&& forall|i: int| 0 <= i < op_path(uri).len() ==> !is_forbidden(#[trigger] op_path(uri)[i])
    &&& !op_path(uri).contains('?')
    &&& !op_path(uri).contains('#')
    &&& op_segments(uri).len() >= 3
    &&& !has_empty_segment(uri)
}

/// Some segment of the path is empty.
pub open spec fn has_empty_segment(uri: Seq<char>) -> bool {
    exists|i: int| 0 <= i < op_segments(uri).len() && (#[trigger] op_segments(uri)[i]).len() == 0
}

/// The segments of a well-formed reference.
pub open spec fn is_reference_path(segments: Seq<Seq<char>>) -> bool {
    &&& segments.len() >= 3
    &&& forall|i: int|
        0 <= i < segments.len() ==> (#[trigger] segments[i]).len() > 0 && !segments[i].contains('/')
    &&& forall|i: int, j: int|
        0 <= i < segments.len() && 0 <= j < segments[i].len() ==> {
            &&& !is_forbidden(#[trigger] segments[i][j])
            &&& segments[i][j] != '?'
            &&& segments[i][j] != '#'
        }
}

/// Index of the first forbidden character of `path`; its length if there is none.
pub open spec fn first_forbidden(path: Seq<char>) -> nat
    decreases path.len(),
{
    if path.len() == 0 || is_forbidden(path[0]) {
        0
    } else {
        1 + first_forbidden(path.drop_first())
    }
}

/// A forbidden character between single quotes, escaped where it needs to be.
pub open spec fn quoted(c: char) -> Seq<char> {
    if c == '\n' {
        "'\\n'"@
    } else if c == '\r' {
        "'\\r'"@
    } else if c == '\0' {
        "'\\0'"@
    } else if c == '\\' {
        "'\\\\'"@
    } else if c == '\'' {
        "'\\''"@
    } else {
        "'"@ + seq![c] + "'"@
    }
}

/// The outcome of checking `uri`: the first of the rules that it breaks, if any.
pub open spec fn op_uri_check(uri: Seq<char>) -> Result<(), ErrorView> {
    let path = op_path(uri);
    let bad = first_forbidden(path) as int;
    if !has_op_prefix(uri) {
        Err(
            ErrorView::ConfigParse(
                "credential reference '"@ + uri + "' does not start with '"@ + OP_URI_PREFIX@
                    + "'"@,
            ),
        )
    } else if bad < path.len() {
        Err(
            ErrorView::ConfigParse(
                "1Password URI contains forbidden character "@ + quoted(path[bad]) + ": "@ + uri,
            ),
        )
    } else if path.contains('?') || path.contains('#') {
        Err(
            ErrorView::ConfigParse(
                "1Password URI must not contain query strings or fragments: "@ + uri,
            ),
        )
    } else if op_segments(uri).len() < 3 {
        Err(
            ErrorView::ConfigParse(
                "1Password URI must have at least vault/item/field segments: "@ + uri,
            ),
        )
    } else if has_empty_segment(uri) {
        Err(ErrorView::ConfigParse("1Password URI has empty path segment: "@ + uri))
    } else {
        Ok(())
    }
}

/// `uri` with everything after the item masked. What is not a reference to a
/// field is masked altogether.
pub open spec fn redacted(uri: Seq<char>) -> Seq<char> {
    if has_op_prefix(uri) && op_segments(uri).len() >= 3 {
        "op://"@ + op_segments(uri)[0] + "/"@ + op_segments(uri)[1] + "/<redacted>"@
    } else {
        "op://***"@
    }
}

/// A credential reference as it may stand in a log: a 1Password reference is
/// redacted, and the name of a keyring account stands as it is.
pub open spec fn log_form(credential_ref: Seq<char>) -> Seq<char> {
    if has_op_prefix(credential_ref) {
        redacted(credential_ref)
    } else {
        credential_ref
    }
}

/// `first_forbidden` is the first index at which a forbidden character stands.
proof fn lemma_first_forbidden(path: Seq<char>)
    ensures
        first_forbidden(path) <= path.len(),
        forall|j: int| 0 <= j < first_forbidden(path) ==> !is_forbidden(#[trigger] path[j]),
        first_forbidden(path) < path.len() ==> is_forbidden(path[first_forbidden(path) as int]),
    decreases path.len(),
{
    if path.len() > 0 && !is_forbidden(path[0]) {
        lemma_first_forbidden(path.drop_first());
        assert forall|j: int| 0 <= j < first_forbidden(path) implies !is_forbidden(
            #[trigger] path[j],
        ) by {
            if j > 0 {
                assert(path[j] == path.drop_first()[j - 1]);
            }
        }
    }
}

/// Whether `c` is one of the forbidden characters.
pub fn is_forbidden_char(c: char) -> (yes: bool)
    ensures
        yes == is_forbidden(c),
{
    let ghost all = forbidden_chars();
    let forbidden: [char; 18] = [
        ';', '|', '&', '$', '`', '(', ')', '{', '}', '<', '>', '!', '\\', '"', '\'', '\n', '\r',
        '\0',
    ];
    assert(forbidden@ == all);
    for i in 0..18usize
        invariant
            forbidden@ == all,
            all.len() == 18,
            forall|j: int| 0 <= j < i ==> all[j] != c,
            is_forbidden(c) == all.contains(c),
    {
        if forbidden[i] == c {
            assert(all[i as int] == c);
            return true;
        }
    }
    false
}

/// A forbidden character, given as text of its own, between single quotes.
fn quote_forbidden(c: &str) -> (text: String)
    requires
        c@.len() == 1,
    ensures
        text@ == quoted(c@[0]),
{
    let only = text::chars_of(c)[0];
    if only == '\n' {
        "'\\n'".to_owned()
    } else if only == '\r' {
        "'\\r'".to_owned()
    } else if only == '\0' {
        "'\\0'".to_owned()
    } else if only == '\\' {
        "'\\\\'".to_owned()
    } else if only == '\'' {
        "'\\''".to_owned()
    } else {
        let mut text = "'".to_owned();
        text.append(c);
        text.append("'");
        assert(c@ == seq![only]);
        text
    }
}

/// The first forbidden character of `path`, as text of its own.
fn find_forbidden<'a>(path: &'a str) -> (bad: Option<&'a str>)
    ensures
        match bad {
            Some(c) => first_forbidden(path@) < path@.len() && c@ == seq![
                path@[first_forbidden(path@) as int],
            ],
            None => first_forbidden(path@) == path@.len(),
        },
{
    let chars = text::chars_of(path);
    proof {
        lemma_first_forbidden(path@);
    }
    for i in 0..chars.len()
        invariant
            chars@ == path@,
            i <= first_forbidden(path@) <= path@.len(),
            forall|j: int|
                0 <= j < first_forbidden(path@) ==> !is_forbidden(#[trigger] path@[j]),
            first_forbidden(path@) < path@.len() ==> is_forbidden(
                path@[first_forbidden(path@) as int],
            ),
    {
        if is_forbidden_char(chars[i]) {
            let c = path.substring_char(i, i + 1);
            assert(c@ == seq![path@[i as int]]);
            return Some(c);
        }
    }
    None
}

/// Check that `uri` is a well-formed 1Password reference.
///
/// The form is `op://vault/item/field`; further segments, as in
/// `op://vault/item/section/field`, are accepted too. The error names the
/// first rule that `uri` breaks.
pub fn validate_op_uri(uri: &str) -> (checked: Result<(), NonoError>)
    ensures
        checked is Ok <==> is_valid_op_uri(uri@),
        match checked {
            Ok(()) => op_uri_check(uri@) is Ok,
            Err(e) => op_uri_check(uri@) == Err::<(), ErrorView>(e@),
        },
{
    let path = match text::strip_prefix(uri, OP_URI_PREFIX) {
        Some(path) => path,
        None => {
            let mut message = "credential reference '".to_owned();
            message.append(uri);
            message.append("' does not start with '");
            message.append(OP_URI_PREFIX);
            message.append("'");
            return Err(NonoError::ConfigParse(message));
        },
    };
    proof {
        lemma_first_forbidden(path@);
    }

    if let Some(bad) = find_forbidden(path) {
        let mut message = "1Password URI contains forbidden character ".to_owned();
        message.append(quote_forbidden(bad).as_str());
        message.append(": ");
        message.append(uri);
        return Err(NonoError::ConfigParse(message));
    }

    if text::contains_char(path, '?') || text::contains_char(path, '#') {
        let mut message = "1Password URI must not contain query strings or fragments: ".to_owned();
        message.append(uri);
        return Err(NonoError::ConfigParse(message));
    }

    let segments = text::split_at_each(path, '/');
    let ghost parts = segments@.map_values(|piece: &str| piece@);
    if segments.len() < 3 {
        let mut message = "1Password URI must have at least vault/item/field segments: ".to_owned();
        message.append(uri);
        return Err(NonoError::ConfigParse(message));
    }

    for i in 0..segments.len()
        invariant
            parts == segments@.map_values(|piece: &str| piece@),
            parts == op_segments(uri@),
            path@ == op_path(uri@),
            has_op_prefix(uri@),
            first_forbidden(path@) == path@.len(),
            !path@.contains('?'),
            !path@.contains('#'),
            segments.len() >= 3,
            forall|j: int| 0 <= j < i ==> (#[trigger] parts[j]).len() > 0,
    {
        if segments[i].is_empty() {
            assert(parts[i as int].len() == 0);
            let mut message = "1Password URI has empty path segment: ".to_owned();
            message.append(uri);
            return Err(NonoError::ConfigParse(message));
        }
    }
    Ok(())
}

/// Whether a credential reference is a 1Password reference.
#[must_use]
pub fn is_op_uri(credential_ref: &str) -> (yes: bool)
    ensures
        yes == has_op_prefix(credential_ref@),
        yes == "op://"@.is_prefix_of(credential_ref@),
{
    text::starts_with(credential_ref, OP_URI_PREFIX)
}

/// Mask the field of a 1Password reference, so that it can be shown or logged.
///
/// `op://vault/item/field` becomes `op://vault/item/<redacted>`.
pub fn redact_op_uri(uri: &str) -> (shown: String)
    ensures
        shown@ == redacted(uri@),
{
    if let Some(path) = text::strip_prefix(uri, OP_URI_PREFIX) {
        let parts = text::split_at_each(path, '/');
        let ghost views = parts@.map_values(|piece: &str| piece@);
        if parts.len() >= 3 {
            assert(views[0] == parts[0]@ && views[1] == parts[1]@);
            let mut shown = "op://".to_owned();
            shown.append(parts[0]);
            shown.append("/");
            shown.append(parts[1]);
            shown.append("/<redacted>");
            return shown;
        }
    }
    "op://***".to_owned()
}

/// A credential reference as it may stand in a log, where the field of a
/// 1Password reference must not show.
pub fn shown_in_log(credential_ref: &str) -> (shown: String)
    ensures
        shown@ == log_form(credential_ref@),
{
    if is_op_uri(credential_ref) {
        redact_op_uri(credential_ref)
    } else {
        credential_ref.to_owned()
    }
}

// ---------------------------------------------------------------------------
// Laws
// ---------------------------------------------------------------------------

/// A reference passes the check exactly when it is well-formed.
pub proof fn law_check_decides_validity(uri: Seq<char>)
    ensures
        op_uri_check(uri) is Ok <==> is_valid_op_uri(uri),
{
    lemma_first_forbidden(op_path(uri));
}

/// A well-formed reference holds no character that a shell gives a meaning to,
/// no line break, no NUL, and neither `?` nor `#`, anywhere in its text, and it
/// does not start like an option.
pub proof fn law_valid_uri_is_inert(uri: Seq<char>)
    requires
        is_valid_op_uri(uri),
    ensures
        forall|i: int|
            0 <= i < uri.len() ==> {
                &&& !is_forbidden(#[trigger] uri[i])
                &&& uri[i] != '?'
                &&& uri[i] != '#'
            },
        uri.len() > 0 && uri[0] != '-',
{
    reveal_strlit("op://");
    assert(uri[0] == uri.subrange(0, OP_URI_PREFIX@.len() as int)[0]);
    assert forall|i: int| 0 <= i < uri.len() implies {
        &&& !is_forbidden(#[trigger] uri[i])
        &&& uri[i] != '?'
        &&& uri[i] != '#'
    } by {
        if i < 5 {
            assert(uri[i] == OP_URI_PREFIX@[i]);
            assert(!is_forbidden('o'));
            assert(!is_forbidden('p'));
            assert(!is_forbidden(':'));
            assert(!is_forbidden('/'));
        } else {
            assert(uri[i] == op_path(uri)[i - 5]);
        }
    }
}

/// A well-formed reference is the scheme followed by at least three segments,
/// joined by slashes, of which none is empty and none holds a forbidden
/// character, `?` or `#`.
pub proof fn law_valid_uri_form(uri: Seq<char>)
    requires
        is_valid_op_uri(uri),
    ensures
        uri == OP_URI_PREFIX@ + text::join(op_segments(uri), '/'),
        is_reference_path(op_segments(uri)),
{
    let path = op_path(uri);
    let segments = op_segments(uri);
    text::law_split_join(path, '/');
    assert(uri == OP_URI_PREFIX@ + path);
    assert forall|i: int, j: int| 0 <= i < segments.len() && 0 <= j < segments[i].len() implies {
        &&& !is_forbidden(#[trigger] segments[i][j])
        &&& segments[i][j] != '?'
        &&& segments[i][j] != '#'
    } by {
        lemma_split_within(path, '/', i, j);
    }
}

/// Every character of a piece of a split is a character of the text.
proof fn lemma_split_within(s: Seq<char>, sep: char, i: int, j: int)
    requires
        0 <= i < text::split(s, sep).len(),
        0 <= j < text::split(s, sep)[i].len(),
    ensures
        s.contains(text::split(s, sep)[i][j]),
    decreases s.len(),
{
    text::lemma_position(s, sep);
    let at = text::position(s, sep) as int;
    if at < s.len() {
        let rest = s.skip(at + 1);
        if i == 0 {
            assert(text::split(s, sep)[0][j] == s[j]);
        } else {
            assert(text::split(s, sep)[i] == text::split(rest, sep)[i - 1]);
            lemma_split_within(rest, sep, i - 1, j);
            let k = choose|k: int| 0 <= k < rest.len() && rest[k] == text::split(s, sep)[i][j];
            assert(s[at + 1 + k] == rest[k]);
        }
    } else {
        assert(text::split(s, sep)[0][j] == s[j]);
    }
}

/// Every character of joined pieces is the separator or a character of a piece.
proof fn lemma_join_within(pieces: Seq<Seq<char>>, sep: char, k: int)
    requires
        0 <= k < text::join(pieces, sep).len(),
    ensures
        ({
            let c = text::join(pieces, sep)[k];
            c == sep || exists|i: int, j: int|
                0 <= i < pieces.len() && 0 <= j < pieces[i].len() && c == #[trigger] pieces[i][j]
        }),
    decreases pieces.len(),
{
    let c = text::join(pieces, sep)[k];
    if pieces.len() == 1 {
        assert(c == pieces[0][k]);
    } else {
        let rest = pieces.drop_first();
        let head = pieces[0].len() as int;
        if k < head {
            assert(c == pieces[0][k]);
        } else if k > head {
            assert(c == text::join(rest, sep)[k - head - 1]);
            lemma_join_within(rest, sep, k - head - 1);
            if c != sep {
                let (i, j) = choose|i: int, j: int|
                    0 <= i < rest.len() && 0 <= j < rest[i].len() && c == #[trigger] rest[i][j];
                assert(c == pieces[i + 1][j]);
            }
        }
    }
}

/// The scheme followed by at least three segments, joined by slashes, of which
/// none is empty and none holds a forbidden character, `?` or `#`, is a
/// well-formed reference with these segments. There may be any number of
/// sections between item and field.
pub proof fn law_reference_accepted(segments: Seq<Seq<char>>)
    requires
        is_reference_path(segments),
    ensures
        is_valid_op_uri(OP_URI_PREFIX@ + text::join(segments, '/')),
        op_segments(OP_URI_PREFIX@ + text::join(segments, '/')) == segments,
{
    let path = text::join(segments, '/');
    let uri = OP_URI_PREFIX@ + path;
    text::law_join_split(segments, '/');
    assert(uri.subrange(0, OP_URI_PREFIX@.len() as int) == OP_URI_PREFIX@);
    assert(op_path(uri) == path);
    assert(!is_forbidden('/'));
    assert forall|k: int| 0 <= k < path.len() implies {
        &&& !is_forbidden(#[trigger] path[k])
        &&& path[k] != '?'
        &&& path[k] != '#'
    } by {
        lemma_join_within(segments, '/', k);
    }
}

/// The field never shows: whatever follows vault and item, the redacted text
/// is the same, and it is made of vault and item alone.
pub proof fn law_redaction_hides_field(vault: Seq<char>, item: Seq<char>, field: Seq<char>)
    requires
        !vault.contains('/'),
        !item.contains('/'),
    ensures
        redacted(OP_URI_PREFIX@ + vault + "/"@ + item + "/"@ + field) == OP_URI_PREFIX@ + vault
            + "/"@ + item + "/<redacted>"@,
{
    reveal_strlit("/");
    let uri = OP_URI_PREFIX@ + vault + "/"@ + item + "/"@ + field;
    let rest = item + seq!['/'] + field;
    let path = vault + seq!['/'] + rest;
    assert("/"@ == seq!['/']);
    assert(uri == OP_URI_PREFIX@ + path);
    assert(uri.subrange(0, OP_URI_PREFIX@.len() as int) == OP_URI_PREFIX@);
    assert(op_path(uri) == path);
    text::law_split_concatenation(vault, '/', rest);
    text::law_split_concatenation(item, '/', field);
    text::lemma_split_none(vault, '/');
    text::lemma_split_none(item, '/');
    text::law_split_join(field, '/');
    assert(op_segments(uri) == seq![vault] + (seq![item] + text::split(field, '/')));
}

/// The field of a 1Password reference does not show in a log either.
pub proof fn law_log_hides_field(vault: Seq<char>, item: Seq<char>, field: Seq<char>)
    requires
        !vault.contains('/'),
        !item.contains('/'),
    ensures
        log_form(OP_URI_PREFIX@ + vault + "/"@ + item + "/"@ + field) == OP_URI_PREFIX@ + vault
            + "/"@ + item + "/<redacted>"@,
{
    let uri = OP_URI_PREFIX@ + vault + "/"@ + item + "/"@ + field;
    law_redaction_hides_field(vault, item, field);
    assert(uri.subrange(0, OP_URI_PREFIX@.len() as int) == OP_URI_PREFIX@);
}

/// Text that is not a reference with vault, item and field shows nothing of
/// itself.
pub proof fn law_redaction_hides_malformed(uri: Seq<char>)
    requires
        !has_op_prefix(uri) || op_segments(uri).len() < 3,
    ensures
        redacted(uri) == "op://***"@,
{
}

/// A well-formed reference keeps its vault and its item when it is redacted.
pub proof fn law_redaction_keeps_vault_and_item(uri: Seq<char>)
    requires
        is_valid_op_uri(uri),
    ensures
        redacted(uri) == OP_URI_PREFIX@ + op_segments(uri)[0] + "/"@ + op_segments(uri)[1]
            + "/<redacted>"@,
{
}

/// Redacting redacted text changes nothing.
pub proof fn law_redaction_idempotent(uri: Seq<char>)
    ensures
        redacted(redacted(uri)) == redacted(uri),
{
    reveal_strlit("op://");
    reveal_strlit("op://***");
    reveal_strlit("/");
    reveal_strlit("/<redacted>");
    reveal_strlit("<redacted>");
    if has_op_prefix(uri) && op_segments(uri).len() >= 3 {
        let vault = op_segments(uri)[0];
        let item = op_segments(uri)[1];
        text::law_split_join(op_path(uri), '/');
        law_redaction_hides_field(vault, item, "<redacted>"@);
        assert("/<redacted>"@ == "/"@ + "<redacted>"@);
        assert(redacted(uri) == OP_URI_PREFIX@ + vault + "/"@ + item + "/"@ + "<redacted>"@);
    } else {
        let shown = "op://***"@;
        let path = op_path(shown);
        assert(path == seq!['*', '*', '*']);
        assert(!path.contains('/'));
        text::lemma_split_none(path, '/');
        assert(op_segments(shown).len() == 1);
    }
}

/// The scheme is `op://`: a reference carries it exactly when it is these five
/// characters and then the path.
pub proof fn law_scheme(reference: Seq<char>, path: Seq<char>)
    ensures
        OP_URI_PREFIX@ == seq!['o', 'p', ':', '/', '/'],
        has_op_prefix(reference) <==> {
            &&& reference.len() >= 5
            &&& reference[0] == 'o'
            &&& reference[1] == 'p'
            &&& reference[2] == ':'
            &&& reference[3] == '/'
            &&& reference[4] == '/'
        },
        has_op_prefix("op://"@ + path),
        op_path("op://"@ + path) == path,
        op_segments("op://"@ + path) == text::split(path, '/'),
{
    reveal_strlit("op://");
    let prefix = "op://"@;
    assert(prefix == seq!['o', 'p', ':', '/', '/']);
    if has_op_prefix(reference) {
        let start = reference.subrange(0, 5);
        assert(start == prefix);
        assert(start[0] == reference[0] && start[1] == reference[1] && start[2] == reference[2]
            && start[3] == reference[3] && start[4] == reference[4]);
    } else if reference.len() >= 5 && reference[0] == 'o' && reference[1] == 'p' && reference[2]
        == ':' && reference[3] == '/' && reference[4] == '/' {
        assert(reference.subrange(0, 5) == prefix);
    }
    assert((prefix + path).subrange(0, 5) == prefix);
    assert((prefix + path).skip(5) == path);
}

/// The forbidden characters, one by one.
pub proof fn law_forbidden(c: char)
    ensures
        is_forbidden(c) <==> {
            ||| c == ';'
            ||| c == '|'
            ||| c == '&'
            ||| c == '$'
            ||| c == '`'
            ||| c == '('
            ||| c == ')'
            ||| c == '{'
            ||| c == '}'
            ||| c == '<'
            ||| c == '>'
            ||| c == '!'
            ||| c == '\\'
            ||| c == '"'
            ||| c == '\''
            ||| c == '\n'
            ||| c == '\r'
            ||| c == '\0'
        },
{
    let all = forbidden_chars();
    assert(all[0] == ';' && all[1] == '|' && all[2] == '&' && all[3] == '$' && all[4] == '`');
    assert(all[5] == '(' && all[6] == ')' && all[7] == '{' && all[8] == '}' && all[9] == '<');
    assert(all[10] == '>' && all[11] == '!' && all[12] == '\\' && all[13] == '"');
    assert(all[14] == '\'' && all[15] == '\n' && all[16] == '\r' && all[17] == '\0');
}

/// A quoted character starts and ends with a single quote. Between them stands
/// the character, or a backslash and the letter, digit or sign that stands for
/// it.
pub proof fn law_quoted(c: char)
    ensures
        ({
            let inside = if c == '\n' {
                seq!['\\', 'n']
            } else if c == '\r' {
                seq!['\\', 'r']
            } else if c == '\0' {
                seq!['\\', '0']
            } else if c == '\\' || c == '\'' {
                seq!['\\', c]
            } else {
                seq![c]
            };
            quoted(c) == seq!['\''] + inside + seq!['\'']
        }),
{
    reveal_strlit("'\\n'");
    reveal_strlit("'\\r'");
    reveal_strlit("'\\0'");
    reveal_strlit("'\\\\'");
    reveal_strlit("'\\''");
    reveal_strlit("'");
}

/// Text without the scheme is refused, and the error says so.
pub proof fn law_missing_scheme_refused(uri: Seq<char>)
    requires
        !"op://"@.is_prefix_of(uri),
    ensures
        !is_valid_op_uri(uri),
        op_uri_check(uri) == Err::<(), _>(
            ErrorView::ConfigParse(
                "credential reference '"@ + uri + "' does not start with '"@ + "op://"@ + "'"@,
            ),
        ),
{
}

/// A path that holds a forbidden character is refused, and the error shows the
/// first one.
pub proof fn law_forbidden_character_refused(before: Seq<char>, bad: char, after: Seq<char>)
    requires
        forall|i: int| 0 <= i < before.len() ==> !is_forbidden(#[trigger] before[i]),
        is_forbidden(bad),
    ensures
        ({
            let uri = "op://"@ + (before + seq![bad] + after);
            &&& !is_valid_op_uri(uri)
            &&& op_uri_check(uri) == Err::<(), _>(
                ErrorView::ConfigParse(
                    "1Password URI contains forbidden character "@ + quoted(bad) + ": "@ + uri,
                ),
            )
        }),
{
    let path = before + seq![bad] + after;
    law_scheme("op://"@ + path, path);
    lemma_first_forbidden(path);
    let at = first_forbidden(path) as int;
    assert(path[before.len() as int] == bad);
    if at < before.len() {
        assert(path[at] == before[at]);
    }
    assert(at == before.len());
    assert(op_path("op://"@ + path)[at] == bad);
}

/// A path with a query string or a fragment is refused.
pub proof fn law_query_refused(path: Seq<char>)
    requires
        forall|i: int| 0 <= i < path.len() ==> !is_forbidden(#[trigger] path[i]),
        path.contains('?') || path.contains('#'),
    ensures
        !is_valid_op_uri("op://"@ + path),
        op_uri_check("op://"@ + path) == Err::<(), _>(
            ErrorView::ConfigParse(
                "1Password URI must not contain query strings or fragments: "@ + ("op://"@ + path),
            ),
        ),
{
    law_scheme("op://"@ + path, path);
    lemma_first_forbidden(path);
}

/// Of a path of acceptable characters only the segments matter: there have to
/// be three at least, and none may be empty.
pub proof fn law_segments_decide(segments: Seq<Seq<char>>)
    requires
        segments.len() >= 1,
        forall|i: int, j: int|
            0 <= i < segments.len() && 0 <= j < segments[i].len() ==> {
                &&& !is_forbidden(#[trigger] segments[i][j])
                &&& segments[i][j] != '?'
                &&& segments[i][j] != '#'
                &&& segments[i][j] != '/'
            },
    ensures
        ({
            let uri = "op://"@ + text::join(segments, '/');
            let one_is_empty = exists|i: int|
                0 <= i < segments.len() && (#[trigger] segments[i]).len() == 0;
            &&& op_segments(uri) == segments
            &&& is_valid_op_uri(uri) <==> segments.len() >= 3 && !one_is_empty
            &&& segments.len() < 3 ==> op_uri_check(uri) == Err::<(), _>(
                ErrorView::ConfigParse(
                    "1Password URI must have at least vault/item/field segments: "@ + uri,
                ),
            )
            &&& segments.len() >= 3 && one_is_empty ==> op_uri_check(uri) == Err::<(), _>(
                ErrorView::ConfigParse("1Password URI has empty path segment: "@ + uri),
            )
            &&& segments.len() >= 3 && !one_is_empty ==> op_uri_check(uri) == Ok::<(), ErrorView>(
                (),
            )
        }),
{
    let path = text::join(segments, '/');
    let uri = "op://"@ + path;
    law_scheme(uri, path);
    assert forall|i: int| 0 <= i < segments.len() implies !(#[trigger] segments[i]).contains(
        '/',
    ) by {
        if segments[i].contains('/') {
            let j = choose|j: int| 0 <= j < segments[i].len() && segments[i][j] == '/';
            assert(segments[i][j] == '/');
        }
    }
    text::law_join_split(segments, '/');
    assert(!is_forbidden('/')) by {
        law_forbidden('/');
    }
    assert forall|k: int| 0 <= k < path.len() implies {
        &&& !is_forbidden(#[trigger] path[k])
        &&& path[k] != '?'
        &&& path[k] != '#'
    } by {
        lemma_join_within(segments, '/', k);
    }
    lemma_first_forbidden(path);
}

/// Text without the scheme is masked altogether, and so is a reference with
/// fewer than two slashes behind the scheme.
pub proof fn law_incomplete_reference_masked(other: Seq<char>, vault: Seq<char>, item: Seq<char>)
    requires
        !"op://"@.is_prefix_of(other),
        !vault.contains('/'),
        !item.contains('/'),
    ensures
        redacted(other) == "op://***"@,
        redacted("op://"@ + vault) == "op://***"@,
        redacted("op://"@ + (vault + seq!['/'] + item)) == "op://***"@,
{
    let path = vault + seq!['/'] + item;
    law_scheme("op://"@ + vault, vault);
    law_scheme("op://"@ + path, path);
    text::lemma_split_none(vault, '/');
    text::lemma_split_none(item, '/');
    text::law_split_concatenation(vault, '/', item);
}

/// The name of a keyring account stands in a log as it is, and the path of a
/// 1Password reference only in its redacted form.
pub proof fn law_log_form(name: Seq<char>, path: Seq<char>)
    requires
        !"op://"@.is_prefix_of(name),
    ensures
        log_form(name) == name,
        log_form("op://"@ + path) == redacted("op://"@ + path),
{
    law_scheme(name, path);
}

} // verus!
