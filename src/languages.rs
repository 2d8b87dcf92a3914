//! Validation of the language restriction list, before any detector exists.
use vstd::prelude::*;
use lingua::IsoCode639_1;
use std::str::FromStr;
use crate::mode::ConfigError;

verus! {

#[verifier::external_type_specification]
#[verifier::external_body]
pub struct ExIsoCode639_1(IsoCode639_1);

/// Whether lingua knows `code` as the ISO 639-1 code of one of its languages.
pub uninterp spec fn known_iso_code(code: Seq<char>) -> bool;

/// Relies on `lingua::IsoCode639_1::from_str`: it accepts exactly the codes
/// of the languages that lingua was built with, in any ASCII case, and
/// fails on every other string.
#[verifier::external_body]
fn iso_code(code: &str) -> (r: Option<IsoCode639_1>)
    ensures
        r is Some <==> known_iso_code(code@),
{
    IsoCode639_1::from_str(code).ok()
}

/// Whether `i` is the position of the first code that is not known.
pub open spec fn first_unknown(codes: Seq<String>, i: int) -> bool {
    0 <= i < codes.len() && !known_iso_code(codes[i]@) && forall|k: int|
        0 <= k < i ==> known_iso_code(#[trigger] codes[k]@)
}

/// Resolves a restriction list into ISO 639-1 codes. It fails on the first
/// code that is not known, naming that code; so a typo never leads to a
/// detector that classifies against every language.
pub fn parse_language_codes(codes: &Vec<String>) -> (r: Result<Vec<IsoCode639_1>, ConfigError>)
    ensures
        r is Ok <==> forall|k: int| 0 <= k < codes@.len() ==> known_iso_code(#[trigger] codes@[k]@),
        r matches Ok(v) ==> v@.len() == codes@.len(),
        r matches Err(e) ==> exists|i: int|
            first_unknown(codes@, i) && e == ConfigError::UnsupportedLanguageCode(codes@[i]),
{
    let mut out: Vec<IsoCode639_1> = Vec::new();
    let mut i: usize = 0;
    while i < codes.len()
        invariant
            i <= codes@.len(),
            out@.len() == i,
            forall|k: int| 0 <= k < i ==> known_iso_code(#[trigger] codes@[k]@),
        decreases codes@.len() - i,
    {
        match iso_code(codes[i].as_str()) {
            Some(c) => out.push(c),
            None => {
                assert(first_unknown(codes@, i as int));
                return Err(ConfigError::UnsupportedLanguageCode(codes[i].clone()));
            },
        }
        i = i + 1;
    }
    Ok(out)
}

} // verus!
