use vstd::prelude::*;

verus! {

/// The codes that tell of a success.
pub open spec fn success(code: u16) -> bool {
    200 <= code < 300
}

/// The text that `reqwest::StatusCode` displays for a code: the number and its reason phrase.
pub uninterp spec fn status_line(code: u16) -> Seq<char>;

/// Whether a code is a success.
pub fn is_success(code: u16) -> (b: bool)
    ensures
        b == success(code),
{
    200 <= code && code < 300
}

/// Calls `to_string` on a `reqwest::StatusCode`, whose `Display` writes the number and the
/// reason phrase from a fixed list. The result is a function of the code alone; what the list
/// holds is not stated. For a number that is no status code it is the text of the error that
/// says so.
#[verifier::external_body]
pub(crate) fn status_text(code: u16) -> (t: String)
    ensures
        t@ == status_line(code),
{
    match reqwest::StatusCode::from_u16(code) {
        Ok(status) => status.to_string(),
        Err(invalid) => invalid.to_string(),
    }
}

} // verus!
