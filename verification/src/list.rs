//! Lists of credentials, as they are given on a command line.
use vstd::prelude::*;

use crate::error::{ErrorView, NonoError};
use crate::mappings::SecretMappings;
use crate::text;
use crate::uri;

verus! {

/// The text that `str::to_uppercase` returns for `s`.
pub uninterp spec fn uppercase(s: Seq<char>) -> Seq<char>;

/// `s` with the letters `a` to `z` replaced by `A` to `Z`.
pub open spec fn ascii_uppercase(s: Seq<char>) -> Seq<char> {
    s.map_values(
        |c: char|
            if 'a' <= c <= 'z' {
                (c as int - 'a' as int + 'A' as int) as char
            } else {
                c
            },
    )
}

/// The mapping that one entry asks for: reference and variable name.
///
/// A 1Password reference has to name its variable, after the last `=` of the
/// entry. Any other entry is the name of a keyring account, whose variable is
/// that name in upper case.
pub open spec fn entry_mapping(entry: Seq<char>) -> Result<(Seq<char>, Seq<char>), ErrorView> {
    if uri::has_op_prefix(entry) {
        match text::last_position(entry, '=') {
            Some(at) => {
                let reference = entry.take(at as int);
                let env_var = entry.skip(at as int + 1);
                if env_var.len() == 0 {
                    Err(
                        ErrorView::ConfigParse(
                            "1Password credential '"@ + uri::redacted(reference)
                                + "' has '=' but no variable name. Use format: op://vault/item/field=MY_VAR"@,
                        ),
                    )
                } else {
                    match uri::op_uri_check(reference) {
                        Ok(()) => Ok((reference, env_var)),
                        Err(e) => Err(e),
                    }
                }
            },
            None => Err(
                ErrorView::ConfigParse(
                    "1Password credential requires an explicit variable name. Use format: op://vault/item/field=MY_VAR (got '"@
                        + uri::redacted(entry) + "')"@,
                ),
            ),
        }
    } else {
        Ok((entry, uppercase(entry)))
    }
}

/// The mappings that `pieces` ask for, one after the other, or the error of
/// the first one that is malformed. The white space round a piece does not
/// count, and a piece of white space alone asks for nothing.
pub open spec fn piece_mappings(pieces: Seq<Seq<char>>) -> Result<
    Map<Seq<char>, Seq<char>>,
    ErrorView,
>
    decreases pieces.len(),
{
    if pieces.len() == 0 {
        Ok(Map::empty())
    } else {
        match piece_mappings(pieces.drop_last()) {
            Ok(mappings) => {
                let entry = text::trim(pieces.last());
                if entry.len() == 0 {
                    Ok(mappings)
                } else {
                    match entry_mapping(entry) {
                        Ok((reference, env_var)) => Ok(mappings.insert(reference, env_var)),
                        Err(e) => Err(e),
                    }
                }
            },
            Err(e) => Err(e),
        }
    }
}

/// The mappings that a comma-separated list asks for.
pub open spec fn list_mappings(list: Seq<char>) -> Result<Map<Seq<char>, Seq<char>>, ErrorView> {
    piece_mappings(text::split(list, ','))
}

/// What two results of parsing come to, one after the other.
pub open spec fn followed_by(
    first: Result<Map<Seq<char>, Seq<char>>, ErrorView>,
    second: Result<Map<Seq<char>, Seq<char>>, ErrorView>,
) -> Result<Map<Seq<char>, Seq<char>>, ErrorView> {
    match first {
        Ok(earlier) => match second {
            Ok(later) => Ok(earlier.union_prefer_right(later)),
            Err(e) => Err(e),
        },
        Err(e) => Err(e),
    }
}

/// The pieces of two lists, one after the other.
proof fn lemma_pieces_concatenation(a: Seq<Seq<char>>, b: Seq<Seq<char>>)
    ensures
        piece_mappings(a + b) == followed_by(piece_mappings(a), piece_mappings(b)),
    decreases b.len(),
{
    if b.len() == 0 {
        assert(a + b == a);
        if let Ok(m) = piece_mappings(a) {
            assert(m.union_prefer_right(Map::empty()) == m);
        }
    } else {
        lemma_pieces_concatenation(a, b.drop_last());
        assert((a + b).drop_last() == a + b.drop_last());
        assert((a + b).last() == b.last());
        if let Ok(m) = piece_mappings(a) {
            if let Ok(n) = piece_mappings(b.drop_last()) {
                if let Ok((k, v)) = entry_mapping(text::trim(b.last())) {
                    assert(m.union_prefer_right(n.insert(k, v)) == m.union_prefer_right(n).insert(
                        k,
                        v,
                    ));
                }
            }
        }
    }
}

/// Calls `str::to_uppercase`.
///
/// The result is named by [`uppercase`]. Of ASCII text it is stated that the
/// letters `a` to `z` become `A` to `Z` and all else stays as it is.
#[verifier::external_body]
fn to_uppercase(s: &str) -> (upper: String)
    ensures
        upper@ == uppercase(s@),
        vstd::utf8::is_ascii_chars(s@) ==> upper@ == ascii_uppercase(s@),
{
    s.to_uppercase()
}

/// The mapping that one entry asks for.
fn parse_entry(entry: &str) -> (parsed: Result<(String, String), NonoError>)
    ensures
        match parsed {
            Ok((reference, env_var)) => {
                &&& entry_mapping(entry@) == Ok::<(Seq<char>, Seq<char>), ErrorView>(
                    (reference@, env_var@),
                )
                &&& !uri::has_op_prefix(reference@) && vstd::utf8::is_ascii_chars(reference@)
                    ==> env_var@ == ascii_uppercase(reference@)
            },
            Err(e) => entry_mapping(entry@) == Err::<(Seq<char>, Seq<char>), ErrorView>(e@),
        },
{
    if uri::is_op_uri(entry) {
        match text::rfind(entry, '=') {
            Some(at) => {
                proof {
                    text::lemma_last_position(entry@, '=');
                }
                let end = entry.unicode_len();
                let reference = entry.substring_char(0, at);
                let env_var = entry.substring_char(at + 1, end);
                assert(reference@ == entry@.take(at as int));
                assert(env_var@ == entry@.skip(at as int + 1));

                if env_var.is_empty() {
                    let mut message = "1Password credential '".to_owned();
                    message.append(uri::redact_op_uri(reference).as_str());
                    message.append(
                        "' has '=' but no variable name. Use format: op://vault/item/field=MY_VAR",
                    );
                    return Err(NonoError::ConfigParse(message));
                }
                match uri::validate_op_uri(reference) {
                    Ok(()) => Ok((reference.to_owned(), env_var.to_owned())),
                    Err(e) => Err(e),
                }
            },
            None => {
                let mut message =
                    "1Password credential requires an explicit variable name. Use format: op://vault/item/field=MY_VAR (got '".to_owned();
                message.append(uri::redact_op_uri(entry).as_str());
                message.append("')");
                Err(NonoError::ConfigParse(message))
            },
        }
    } else {
        Ok((entry.to_owned(), to_uppercase(entry)))
    }
}

/// The keyring names among the references have, as far as they are ASCII,
/// variables that differ from them in the case of letters alone.
pub open spec fn keyring_names_in_upper_case(mappings: Map<Seq<char>, Seq<char>>) -> bool {
    forall|reference: Seq<char>| #[trigger]
        mappings.contains_key(reference) && !uri::has_op_prefix(reference)
            && vstd::utf8::is_ascii_chars(reference) ==> mappings[reference] == ascii_uppercase(
            reference,
        )
}

/// Build the mappings that a comma-separated list of credentials asks for.
///
/// An entry has one of two forms:
/// - the name of a keyring account: `openai_api_key` goes to the variable
///   `OPENAI_API_KEY`;
/// - a 1Password reference with a variable: `op://vault/item/field=MY_VAR`
///   goes to the variable `MY_VAR`.
///
/// A 1Password reference without `=` and a variable name is an error, since a
/// reference in upper case is no name for a variable.
pub fn build_mappings_from_list(accounts: &str) -> (built: Result<SecretMappings, NonoError>)
    ensures
        match built {
            Ok(mappings) => {
                &&& list_mappings(accounts@) == Ok::<_, ErrorView>(mappings@)
                &&& keyring_names_in_upper_case(mappings@)
            },
            Err(e) => list_mappings(accounts@) == Err::<Map<Seq<char>, Seq<char>>, _>(e@),
        },
{
    let mut mappings = SecretMappings::new();
    let pieces = text::split_at_each(accounts, ',');
    let ghost views = pieces@.map_values(|piece: &str| piece@);
    assert(views.take(0) == Seq::<Seq<char>>::empty());
    for i in 0..pieces.len()
        invariant
            views == pieces@.map_values(|piece: &str| piece@),
            views == text::split(accounts@, ','),
            piece_mappings(views.take(i as int)) == Ok::<_, ErrorView>(mappings@),
            keyring_names_in_upper_case(mappings@),
    {
        proof {
            assert(views.take(i + 1).drop_last() == views.take(i as int));
            assert(views.take(i + 1) + views.skip(i + 1) == views);
            lemma_pieces_concatenation(views.take(i + 1), views.skip(i + 1));
        }
        let entry = text::trimmed(pieces[i]);
        if !entry.is_empty() {
            match parse_entry(entry) {
                Ok((reference, env_var)) => {
                    mappings.insert(reference, env_var);
                },
                Err(e) => {
                    return Err(e);
                },
            }
        }
    }
    assert(views.take(views.len() as int) == views);
    Ok(mappings)
}

/// Combine the credentials of a command line with those of a profile. Where
/// both name a credential, the command line counts.
pub fn build_secret_mappings(
    cli_secrets: Option<&str>,
    profile_secrets: &SecretMappings,
) -> (built: Result<SecretMappings, NonoError>)
    ensures
        match (cli_secrets, built) {
            (None, Ok(combined)) => combined@ == profile_secrets@,
            (None, Err(_)) => false,
            (Some(list), Ok(combined)) => {
                &&& list_mappings(list@) matches Ok(cli)
                &&& combined@ == profile_secrets@.union_prefer_right(cli)
                &&& keyring_names_in_upper_case(cli)
            },
            (Some(list), Err(e)) => list_mappings(list@) == Err::<Map<Seq<char>, Seq<char>>, _>(e@),
        },
{
    let mut combined = profile_secrets.clone();
    if let Some(list) = cli_secrets {
        match build_mappings_from_list(list) {
            Ok(cli) => {
                combined.extend(cli);
            },
            Err(e) => {
                return Err(e);
            },
        }
    }
    Ok(combined)
}

// ---------------------------------------------------------------------------
// Laws
// ---------------------------------------------------------------------------

/// A list that is put together from two is read as one after the other: an
/// error of the first counts before one of the second, and where both name a
/// credential, the second counts.
pub proof fn law_list_concatenation(a: Seq<char>, b: Seq<char>)
    ensures
        list_mappings(a + seq![','] + b) == followed_by(list_mappings(a), list_mappings(b)),
        list_mappings(a) is Err ==> list_mappings(a + seq![','] + b) == list_mappings(a),
        list_mappings(a) is Ok && list_mappings(b) is Err ==> list_mappings(a + seq![','] + b)
            == list_mappings(b),
        list_mappings(a) is Ok && list_mappings(b) is Ok ==> list_mappings(a + seq![','] + b)
            == Ok::<_, ErrorView>(
            list_mappings(a)->Ok_0.union_prefer_right(list_mappings(b)->Ok_0),
        ),
{
    text::law_split_concatenation(a, ',', b);
    lemma_pieces_concatenation(text::split(a, ','), text::split(b, ','));
}

/// The white space round the entries of a list does not count.
pub proof fn law_white_space_does_not_count(a: Seq<char>, b: Seq<char>)
    requires
        text::split(a, ',').len() == text::split(b, ',').len(),
        forall|i: int|
            0 <= i < text::split(a, ',').len() ==> text::trim(#[trigger] text::split(a, ',')[i])
                == text::trim(text::split(b, ',')[i]),
    ensures
        list_mappings(a) == list_mappings(b),
{
    lemma_pieces_trimmed(text::split(a, ','), text::split(b, ','));
}

proof fn lemma_pieces_trimmed(a: Seq<Seq<char>>, b: Seq<Seq<char>>)
    requires
        a.len() == b.len(),
        forall|i: int| 0 <= i < a.len() ==> text::trim(#[trigger] a[i]) == text::trim(b[i]),
    ensures
        piece_mappings(a) == piece_mappings(b),
    decreases a.len(),
{
    if a.len() > 0 {
        assert forall|i: int| 0 <= i < a.drop_last().len() implies text::trim(
            #[trigger] a.drop_last()[i],
        ) == text::trim(b.drop_last()[i]) by {
            assert(a.drop_last()[i] == a[i]);
        }
        lemma_pieces_trimmed(a.drop_last(), b.drop_last());
        assert(text::trim(a[a.len() - 1]) == text::trim(b[a.len() - 1]));
    }
}

/// An entry of white space alone asks for nothing, before a list, after it or
/// by itself.
pub proof fn law_blank_entry(list: Seq<char>, blank: Seq<char>)
    requires
        !blank.contains(','),
        text::trim(blank).len() == 0,
    ensures
        list_mappings(blank) == Ok::<_, ErrorView>(Map::<Seq<char>, Seq<char>>::empty()),
        list_mappings(blank + seq![','] + list) == list_mappings(list),
        list_mappings(list + seq![','] + blank) == list_mappings(list),
{
    text::lemma_split_none(blank, ',');
    assert(seq![blank].drop_last() == Seq::<Seq<char>>::empty());
    assert(piece_mappings(seq![blank].drop_last()) == Ok::<_, ErrorView>(
        Map::<Seq<char>, Seq<char>>::empty(),
    ));
    law_list_concatenation(blank, list);
    law_list_concatenation(list, blank);
    if let Ok(m) = list_mappings(list) {
        assert(m.union_prefer_right(Map::empty()) == m);
        assert(Map::empty().union_prefer_right(m) == m);
    }
}

/// A list is accepted exactly when each of its entries is blank or well-formed.
pub proof fn law_list_accepted(list: Seq<char>)
    ensures
        list_mappings(list) is Ok <==> forall|i: int|
            0 <= i < text::split(list, ',').len() ==> is_acceptable(
                #[trigger] text::split(list, ',')[i],
            ),
{
    lemma_pieces_accepted(text::split(list, ','));
}

/// The piece is blank or asks for a mapping.
pub open spec fn is_acceptable(piece: Seq<char>) -> bool {
    text::trim(piece).len() == 0 || entry_mapping(text::trim(piece)) is Ok
}

proof fn lemma_pieces_accepted(pieces: Seq<Seq<char>>)
    ensures
        piece_mappings(pieces) is Ok <==> forall|i: int|
            0 <= i < pieces.len() ==> is_acceptable(#[trigger] pieces[i]),
    decreases pieces.len(),
{
    if pieces.len() > 0 {
        let rest = pieces.drop_last();
        lemma_pieces_accepted(rest);
        if forall|i: int| 0 <= i < pieces.len() ==> is_acceptable(#[trigger] pieces[i]) {
            assert forall|i: int| 0 <= i < rest.len() implies is_acceptable(#[trigger] rest[i]) by {
                assert(rest[i] == pieces[i]);
            }
            assert(is_acceptable(pieces[pieces.len() - 1]));
        }
        if piece_mappings(pieces) is Ok {
            assert forall|i: int| 0 <= i < pieces.len() implies is_acceptable(
                #[trigger] pieces[i],
            ) by {
                if i < rest.len() {
                    assert(rest[i] == pieces[i]);
                }
            }
        }
    }
}

/// A list with a 1Password reference that names no variable is refused.
pub proof fn law_bare_reference_refused(list: Seq<char>, i: int)
    requires
        0 <= i < text::split(list, ',').len(),
        "op://"@.is_prefix_of(text::trim(text::split(list, ',')[i])),
        !text::trim(text::split(list, ',')[i]).contains('='),
    ensures
        list_mappings(list) is Err,
{
    let entry = text::trim(text::split(list, ',')[i]);
    reveal_strlit("op://");
    assert(entry.len() > 0);
    text::lemma_last_position(entry, '=');
    law_list_accepted(list);
    assert(!is_acceptable(text::split(list, ',')[i]));
}

/// The error for a 1Password reference without a variable says of the reference
/// what its redacted form says, and no more.
pub proof fn law_missing_variable_hides_field(a: Seq<char>, b: Seq<char>)
    requires
        "op://"@.is_prefix_of(a),
        "op://"@.is_prefix_of(b),
        uri::redacted(a) == uri::redacted(b),
    ensures
        !a.contains('=') && !b.contains('=') ==> entry_mapping(a) == entry_mapping(b),
        entry_mapping(a.push('=')) is Err,
        entry_mapping(a.push('=')) == entry_mapping(b.push('=')),
{
    text::lemma_last_position(a, '=');
    text::lemma_last_position(b, '=');
    lemma_empty_variable(a);
    lemma_empty_variable(b);
}

proof fn lemma_empty_variable(reference: Seq<char>)
    requires
        uri::has_op_prefix(reference),
    ensures
        entry_mapping(reference.push('=')) == Err::<(Seq<char>, Seq<char>), _>(
            ErrorView::ConfigParse(
                "1Password credential '"@ + uri::redacted(reference)
                    + "' has '=' but no variable name. Use format: op://vault/item/field=MY_VAR"@,
            ),
        ),
{
    let entry = reference.push('=');
    let len = uri::OP_URI_PREFIX@.len() as int;
    assert(entry.subrange(0, len) == reference.subrange(0, len));
    assert(text::last_position(entry, '=') == Some(reference.len()));
    assert(entry.take(reference.len() as int) == reference);
    assert(entry.skip(reference.len() as int + 1).len() == 0);
}

/// What an accepted list maps: 1Password references only where they are
/// well-formed, each to a variable with a name that is not empty and holds no
/// `=`; and keyring names, none of them empty, each to itself in upper case.
pub proof fn law_accepted_mappings(list: Seq<char>)
    requires
        list_mappings(list) is Ok,
    ensures
        all_well_formed(list_mappings(list)->Ok_0),
{
    lemma_pieces_well_formed(text::split(list, ','));
}

/// Each entry of the map is one that a list can ask for.
pub open spec fn all_well_formed(mappings: Map<Seq<char>, Seq<char>>) -> bool {
    forall|reference: Seq<char>| #[trigger]
        mappings.contains_key(reference) ==> is_well_formed(reference, mappings[reference])
}

/// A mapping that a list can ask for.
pub open spec fn is_well_formed(reference: Seq<char>, env_var: Seq<char>) -> bool {
    if uri::has_op_prefix(reference) {
        &&& uri::is_valid_op_uri(reference)
        &&& env_var.len() > 0
        &&& !env_var.contains('=')
    } else {
        &&& reference.len() > 0
        &&& env_var == uppercase(reference)
    }
}

proof fn lemma_pieces_well_formed(pieces: Seq<Seq<char>>)
    requires
        piece_mappings(pieces) is Ok,
    ensures
        all_well_formed(piece_mappings(pieces)->Ok_0),
    decreases pieces.len(),
{
    if pieces.len() > 0 {
        lemma_pieces_well_formed(pieces.drop_last());
        let entry = text::trim(pieces.last());
        if entry.len() > 0 {
            let (reference, env_var) = entry_mapping(entry)->Ok_0;
            assert(is_well_formed(reference, env_var)) by {
                if uri::has_op_prefix(entry) {
                    text::lemma_last_position(entry, '=');
                    uri::law_check_decides_validity(reference);
                    let at = text::last_position(entry, '=')->Some_0 as int;
                    assert forall|j: int| 0 <= j < env_var.len() implies env_var[j] != '=' by {
                        assert(env_var[j] == entry[at + 1 + j]);
                    }
                }
            }
        }
    }
}

/// A well-formed reference, `=` and the name of a variable make a list that
/// maps just this reference to just this variable.
pub proof fn law_op_entry(reference: Seq<char>, env_var: Seq<char>)
    requires
        uri::is_valid_op_uri(reference),
        !reference.contains(','),
        env_var.len() > 0,
        !env_var.contains(','),
        !env_var.contains('='),
        !text::is_white_space(env_var.last()),
    ensures
        list_mappings(reference + seq!['='] + env_var) == Ok::<_, ErrorView>(
            map![reference => env_var],
        ),
{
    let entry = reference + seq!['='] + env_var;
    reveal_strlit("op://");
    assert(entry[0] == 'o') by {
        assert(reference.subrange(0, 5)[0] == reference[0]);
    }
    assert(entry.last() == env_var.last());
    text::lemma_trim_nothing(entry);
    assert(!entry.contains(','));
    text::lemma_split_none(entry, ',');
    assert(uri::has_op_prefix(entry)) by {
        assert(entry.subrange(0, 5) == reference.subrange(0, 5));
    }
    let at = reference.len() as int;
    text::lemma_last_position(entry, '=');
    assert(entry.contains('=')) by {
        assert(entry[at] == '=');
    }
    let found = text::last_position(entry, '=')->Some_0 as int;
    assert(found == at) by {
        if found > at {
            assert(env_var[found - at - 1] == '=');
        } else if found < at {
            assert(entry[at] == '=');
        }
    }
    assert(entry.take(at) == reference);
    assert(entry.skip(at + 1) == env_var);
    uri::law_check_decides_validity(reference);
    lemma_single_piece(entry);
}

/// The name of a keyring account makes a list that maps just this name to
/// itself in upper case.
pub proof fn law_keyring_entry(name: Seq<char>)
    requires
        name.len() > 0,
        !name.contains(','),
        !text::is_white_space(name[0]),
        !text::is_white_space(name.last()),
        !"op://"@.is_prefix_of(name),
    ensures
        list_mappings(name) == Ok::<_, ErrorView>(map![name => uppercase(name)]),
{
    text::lemma_trim_nothing(name);
    text::lemma_split_none(name, ',');
    lemma_single_piece(name);
}

proof fn lemma_single_piece(entry: Seq<char>)
    requires
        entry.len() > 0,
        text::trim(entry) == entry,
        entry_mapping(entry) is Ok,
    ensures
        piece_mappings(seq![entry]) == Ok::<_, ErrorView>(
            map![entry_mapping(entry)->Ok_0.0 => entry_mapping(entry)->Ok_0.1],
        ),
{
    assert(seq![entry].drop_last() == Seq::<Seq<char>>::empty());
    assert(piece_mappings(seq![entry].drop_last()) == Ok::<_, ErrorView>(
        Map::<Seq<char>, Seq<char>>::empty(),
    ));
    let (reference, env_var) = entry_mapping(entry)->Ok_0;
    assert(Map::empty().insert(reference, env_var) == map![reference => env_var]);
}

/// Of the combined mappings, those that the command line names are as it names
/// them, and the others are those of the profile.
pub proof fn law_command_line_counts(
    profile: Map<Seq<char>, Seq<char>>,
    cli: Map<Seq<char>, Seq<char>>,
    reference: Seq<char>,
)
    ensures
        ({
            let combined = profile.union_prefer_right(cli);
            &&& combined.contains_key(reference) <==> profile.contains_key(reference)
                || cli.contains_key(reference)
            &&& cli.contains_key(reference) ==> combined[reference] == cli[reference]
            &&& profile.contains_key(reference) && !cli.contains_key(reference)
                ==> combined[reference] == profile[reference]
        }),
{
}

/// A comma is no white space.
proof fn lemma_no_comma(blank: Seq<char>)
    requires
        forall|i: int| 0 <= i < blank.len() ==> text::is_white_space(#[trigger] blank[i]),
    ensures
        !blank.contains(','),
{
    assert(!text::is_white_space(','));
}

/// What a list of one entry comes to, with white space round the entry.
proof fn lemma_single_entry(before: Seq<char>, entry: Seq<char>, after: Seq<char>)
    requires
        forall|i: int| 0 <= i < before.len() ==> text::is_white_space(#[trigger] before[i]),
        forall|i: int| 0 <= i < after.len() ==> text::is_white_space(#[trigger] after[i]),
        entry.len() > 0,
        !entry.contains(','),
        !text::is_white_space(entry[0]),
        !text::is_white_space(entry.last()),
    ensures
        list_mappings(before + entry + after) == match entry_mapping(entry) {
            Ok((reference, env_var)) => Ok::<_, ErrorView>(map![reference => env_var]),
            Err(e) => Err(e),
        },
{
    let list = before + entry + after;
    lemma_no_comma(before);
    lemma_no_comma(after);
    assert(!list.contains(',')) by {
        if list.contains(',') {
            let i = choose|i: int| 0 <= i < list.len() && list[i] == ',';
            if i < before.len() {
                assert(before[i] == ',');
            } else if i < before.len() + entry.len() {
                assert(entry[i - before.len()] == ',');
            } else {
                assert(after[i - before.len() - entry.len()] == ',');
            }
        }
    }
    text::lemma_split_none(list, ',');
    text::law_trim(before, entry, after);
    assert(seq![list].drop_last() == Seq::<Seq<char>>::empty());
    assert(piece_mappings(seq![list].drop_last()) == Ok::<_, ErrorView>(
        Map::<Seq<char>, Seq<char>>::empty(),
    ));
    if let Ok((reference, env_var)) = entry_mapping(entry) {
        assert(Map::empty().insert(reference, env_var) == map![reference => env_var]);
    }
}

/// A list of white space alone maps nothing.
pub proof fn law_blank_list(blank: Seq<char>)
    requires
        forall|i: int| 0 <= i < blank.len() ==> text::is_white_space(#[trigger] blank[i]),
    ensures
        list_mappings(blank) == Ok::<_, ErrorView>(Map::<Seq<char>, Seq<char>>::empty()),
{
    let nothing = Seq::<char>::empty();
    lemma_no_comma(blank);
    text::law_trim(blank, nothing, nothing);
    assert(blank + nothing + nothing == blank);
    law_blank_entry(nothing, blank);
}

/// The name of a keyring account, with white space round it, maps just this
/// name, without the white space, to itself in upper case.
pub proof fn law_keyring_name(before: Seq<char>, name: Seq<char>, after: Seq<char>)
    requires
        forall|i: int| 0 <= i < before.len() ==> text::is_white_space(#[trigger] before[i]),
        forall|i: int| 0 <= i < after.len() ==> text::is_white_space(#[trigger] after[i]),
        name.len() > 0,
        !name.contains(','),
        !text::is_white_space(name[0]),
        !text::is_white_space(name.last()),
        !"op://"@.is_prefix_of(name),
    ensures
        list_mappings(before + name + after) == Ok::<_, ErrorView>(map![name => uppercase(name)]),
{
    lemma_single_entry(before, name, after);
}

/// Upper case of ASCII text: the same length, the letters `a` to `z` by the
/// letters that stand 32 code points before them, all else as it is.
pub proof fn law_ascii_uppercase(s: Seq<char>)
    ensures
        ascii_uppercase(s).len() == s.len(),
        forall|i: int|
            0 <= i < s.len() ==> (#[trigger] ascii_uppercase(s)[i]) as int == (if 97 <= s[i] as int
                && s[i] as int <= 122 {
                s[i] as int - 32
            } else {
                s[i] as int
            }),
{
}

/// What is said of keyring names in upper case, for one name.
pub proof fn law_keyring_names_in_upper_case(
    mappings: Map<Seq<char>, Seq<char>>,
    name: Seq<char>,
)
    requires
        keyring_names_in_upper_case(mappings),
        mappings.contains_key(name),
        !"op://"@.is_prefix_of(name),
        vstd::utf8::is_ascii_chars(name),
    ensures
        mappings[name] == ascii_uppercase(name),
{
}

/// A 1Password reference, `=` and the name of a variable, with white space
/// round them: the reference as it stands before the last `=` is checked, and
/// if it passes, just it is mapped to just what stands behind.
pub proof fn law_op_reference(
    before: Seq<char>,
    path: Seq<char>,
    env_var: Seq<char>,
    after: Seq<char>,
)
    requires
        forall|i: int| 0 <= i < before.len() ==> text::is_white_space(#[trigger] before[i]),
        forall|i: int| 0 <= i < after.len() ==> text::is_white_space(#[trigger] after[i]),
        !path.contains(','),
        env_var.len() > 0,
        !env_var.contains(','),
        !env_var.contains('='),
        !text::is_white_space(env_var.last()),
    ensures
        ({
            let reference = "op://"@ + path;
            let list = before + (reference + seq!['='] + env_var) + after;
            &&& uri::is_valid_op_uri(reference) ==> list_mappings(list) == Ok::<_, ErrorView>(
                map![reference => env_var],
            )
            &&& uri::op_uri_check(reference) matches Err(e) ==> list_mappings(list) == Err::<
                Map<Seq<char>, Seq<char>>,
                _,
            >(e)
        }),
{
    let reference = "op://"@ + path;
    let entry = reference + seq!['='] + env_var;
    lemma_op_entry_shape(path, seq!['='] + env_var);
    assert(entry == "op://"@ + (path + (seq!['='] + env_var)));
    assert(entry.last() == env_var.last());
    assert(!entry.contains(',')) by {
        if entry.contains(',') {
            let i = choose|i: int| 0 <= i < entry.len() && entry[i] == ',';
            if i < reference.len() {
                assert(reference[i] == ',');
                lemma_scheme_char(path, ',');
            } else if i > reference.len() {
                assert(env_var[i - reference.len() - 1] == ',');
            }
        }
    }
    text::law_last_position(reference, '=', env_var);
    assert(entry.take(reference.len() as int) == reference);
    assert(entry.skip(reference.len() as int + 1) == env_var);
    uri::law_check_decides_validity(reference);
    lemma_single_entry(before, entry, after);
}

/// A 1Password reference with `=` and nothing but white space behind it is
/// refused, and the error shows the reference redacted.
pub proof fn law_empty_variable_refused(before: Seq<char>, path: Seq<char>, after: Seq<char>)
    requires
        forall|i: int| 0 <= i < before.len() ==> text::is_white_space(#[trigger] before[i]),
        forall|i: int| 0 <= i < after.len() ==> text::is_white_space(#[trigger] after[i]),
        !path.contains(','),
    ensures
        list_mappings(before + ("op://"@ + path + seq!['=']) + after) == Err::<
            Map<Seq<char>, Seq<char>>,
            _,
        >(
            ErrorView::ConfigParse(
                "1Password credential '"@ + uri::redacted("op://"@ + path)
                    + "' has '=' but no variable name. Use format: op://vault/item/field=MY_VAR"@,
            ),
        ),
{
    let reference = "op://"@ + path;
    let entry = reference + seq!['='];
    lemma_op_entry_shape(path, seq!['=']);
    assert(entry == "op://"@ + (path + seq!['=']));
    assert(entry.last() == '=');
    assert(!entry.contains(',')) by {
        if entry.contains(',') {
            let i = choose|i: int| 0 <= i < entry.len() && entry[i] == ',';
            assert(reference[i] == ',');
            lemma_scheme_char(path, ',');
        }
    }
    uri::law_scheme(reference, path);
    lemma_empty_variable(reference);
    assert(reference.push('=') == entry);
    lemma_single_entry(before, entry, after);
}

/// A 1Password reference without `=` is refused, and the error shows it
/// redacted.
pub proof fn law_missing_variable_refused(before: Seq<char>, path: Seq<char>, after: Seq<char>)
    requires
        forall|i: int| 0 <= i < before.len() ==> text::is_white_space(#[trigger] before[i]),
        forall|i: int| 0 <= i < after.len() ==> text::is_white_space(#[trigger] after[i]),
        !path.contains(','),
        !path.contains('='),
        path.len() > 0 ==> !text::is_white_space(path.last()),
    ensures
        list_mappings(before + ("op://"@ + path) + after) == Err::<Map<Seq<char>, Seq<char>>, _>(
            ErrorView::ConfigParse(
                "1Password credential requires an explicit variable name. Use format: op://vault/item/field=MY_VAR (got '"@
                    + uri::redacted("op://"@ + path) + "')"@,
            ),
        ),
{
    let entry = "op://"@ + path;
    lemma_op_entry_shape(path, Seq::empty());
    assert("op://"@ + (path + Seq::empty()) == entry);
    reveal_strlit("op://");
    if path.len() > 0 {
        assert(entry.last() == path.last());
    } else {
        assert(entry.last() == '/');
    }
    assert(!entry.contains(',')) by {
        if entry.contains(',') {
            lemma_scheme_char(path, ',');
        }
    }
    assert(!entry.contains('=')) by {
        if entry.contains('=') {
            lemma_scheme_char(path, '=');
        }
    }
    text::lemma_last_position(entry, '=');
    lemma_single_entry(before, entry, after);
}

/// An entry that is made of the scheme, a path and more.
proof fn lemma_op_entry_shape(path: Seq<char>, more: Seq<char>)
    ensures
        ({
            let entry = "op://"@ + (path + more);
            &&& uri::has_op_prefix(entry)
            &&& entry.len() >= 5
            &&& !text::is_white_space(entry[0])
        }),
{
    reveal_strlit("op://");
    let entry = "op://"@ + (path + more);
    uri::law_scheme(entry, path + more);
    assert(entry[0] == 'o');
}

/// The scheme holds neither a comma nor an equals sign.
proof fn lemma_scheme_char(path: Seq<char>, c: char)
    requires
        ("op://"@ + path).contains(c),
        c == ',' || c == '=',
    ensures
        path.contains(c),
{
    reveal_strlit("op://");
    let entry = "op://"@ + path;
    let i = choose|i: int| 0 <= i < entry.len() && entry[i] == c;
    if i < 5 {
        assert(entry[i] == "op://"@[i]);
    } else {
        assert(path[i - 5] == c);
    }
}

} // verus!
