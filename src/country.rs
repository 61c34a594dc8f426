//! ISO 3166-1 country codes and their display names.
use vstd::prelude::*;

verus! {

/// The display name of the country with code `code`, if the code is known.
pub uninterp spec fn country_name_of(code: Seq<char>) -> Option<Seq<char>>;

pub open spec fn is_upper_ascii(c: char) -> bool {
    'A' <= c && c <= 'Z'
}

/// Relies on `<iso_country::Country as FromStr>::from_str`, which looks the
/// text up among the alpha-2 codes (two upper-case letters, and the empty code
/// of the unspecified country), and on `Country::name` for the display name.
#[verifier::external_body]
pub(crate) fn country_name(code: &str) -> (r: Option<String>)
    ensures
        match r {
            Some(n) => country_name_of(code@) == Some(n@),
            None => country_name_of(code@) is None,
        },
        r is Some ==> code@.len() == 0 || (code@.len() == 2 && is_upper_ascii(code@[0])
            && is_upper_ascii(code@[1])),
{
    match code.parse::<iso_country::Country>() {
        Ok(c) => Some(c.name().to_string()),
        Err(_) => None,
    }
}

} // verus!
