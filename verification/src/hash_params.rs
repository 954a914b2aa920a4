//! The client's reading of the server's hash parameters.
//!
//! The server answers with a JSON list of strings.  A reply that is not such
//! a list is read as the single entry `NO_DATA`.
use vstd::prelude::*;
use vstd::string::*;

verus! {

/// The list of strings that `serde_json` reads from `bytes`, if `bytes` hold
/// a JSON array of strings.
pub uninterp spec fn json_string_list(bytes: Seq<u8>) -> Option<Seq<Seq<char>>>;

/// `serde_json::from_slice::<Vec<String>>` on `bytes`; the error is dropped.
#[verifier::external_body]
fn read_json_string_list(bytes: &[u8]) -> (r: Option<Vec<String>>)
    ensures
        r.deep_view() == json_string_list(bytes@),
{
    match serde_json::from_slice::<Vec<String>>(bytes) {
        Ok(list) => Some(list),
        Err(_) => None,
    }
}

/// The entry that stands for a reply that could not be read.
pub open spec fn no_data() -> Seq<Seq<char>> {
    seq!["NO_DATA"@]
}

/// The hash parameters from a parsed reply: the list itself, or `NO_DATA`
/// when the reply was not a list of strings.
pub fn hash_params_or_default(parsed: Option<Vec<String>>) -> (params: Vec<String>)
    ensures
        params.deep_view() == (match parsed.deep_view() {
            Some(list) => list,
            None => no_data(),
        }),
{
    match parsed {
        Some(list) => list,
        None => {
            let mut v: Vec<String> = Vec::new();
            v.push(String::from_str("NO_DATA"));
            assert(v.deep_view() =~= no_data());
            v
        },
    }
}

/// The hash parameters that the reply body `body` carries.
pub fn hash_params_from_body(body: &[u8]) -> (params: Vec<String>)
    ensures
        params.deep_view() == (match json_string_list(body@) {
            Some(list) => list,
            None => no_data(),
        }),
{
    let parsed = read_json_string_list(body);
    hash_params_or_default(parsed)
}

} // verus!
