//! Subresource-integrity strings (`dist.integrity`), as the `ssri` crate
//! parses and checks them.
use vstd::prelude::*;
use crate::text::trim_ws;

verus! {

#[verifier::external_type_specification]
#[verifier::external_body]
pub struct ExIntegrity(ssri::Integrity);

/// Whether `ssri` parses the text as an integrity string.
pub uninterp spec fn sri_parses(raw: Seq<char>) -> bool;

/// Whether the data matches the integrity string parsed from `raw`.
pub uninterp spec fn sri_matches(raw: Seq<char>, data: Seq<u8>) -> bool;

/// The `Display` of the error `ssri` gives for text it does not parse.
pub uninterp spec fn sri_parse_error(raw: Seq<char>) -> Seq<char>;

/// The `Display` of the error `ssri`'s check gives for data that does not match.
pub uninterp spec fn sri_mismatch_error(raw: Seq<char>, data: Seq<u8>) -> Seq<char>;

/// An integrity string together with its parsed form.
pub struct ParsedIntegrity {
    raw: String,
    inner: ssri::Integrity,
}

impl View for ParsedIntegrity {
    type V = Seq<char>;

    closed spec fn view(&self) -> Seq<char> {
        self.raw@
    }
}

/// Parses with `ssri`'s `FromStr for Integrity`: it succeeds exactly when
/// `sri_parses` holds of the text; the error's message is named
/// `sri_parse_error`.
#[verifier::external_body]
pub(crate) fn parse_integrity(raw: &str) -> (r: Result<ParsedIntegrity, String>)
    ensures
        r is Ok == sri_parses(raw@),
        r matches Ok(p) ==> p@ == raw@,
        r matches Err(m) ==> m@ == sri_parse_error(raw@),
{
    match raw.parse::<ssri::Integrity>() {
        Ok(inner) => Ok(ParsedIntegrity { raw: raw.to_string(), inner }),
        Err(e) => Err(e.to_string()),
    }
}

/// `Integrity::check`: it succeeds exactly when `sri_matches` holds; the
/// error's message is named `sri_mismatch_error`. It indexes the first
/// hash, so the text must hold one (be non-blank).
#[verifier::external_body]
pub(crate) fn check_integrity(p: &ParsedIntegrity, data: &[u8]) -> (r: Result<(), String>)
    requires
        trim_ws(p@).len() > 0,
    ensures
        r is Ok == sri_matches(p@, data@),
        r matches Err(m) ==> m@ == sri_mismatch_error(p@, data@),
{
    match p.inner.check(data) {
        Ok(_) => Ok(()),
        Err(e) => Err(e.to_string()),
    }
}

} // verus!
