//! Node identity for object naming: the hostname, or a fresh random token
//! when the hostname cannot be read.

use vstd::prelude::*;

verus! {

/// Relies on hostname::get for the machine's hostname; `None` when it
/// cannot be read or is not valid text. The result depends on the machine,
/// so nothing more is promised.
#[verifier::external_body]
fn fetch_hostname() -> (r: Option<String>) {
    match hostname::get() {
        Ok(name) => name.into_string().ok(),
        Err(_) => None,
    }
}

/// Relies on uuid::Uuid::new_v4 and its hyphenated `Display` form: 36
/// ASCII characters. The value is random, so only its shape is stated.
#[verifier::external_body]
fn fresh_uuid_string() -> (r: String)
    ensures
        r@.len() == 36,
{
    uuid::Uuid::new_v4().to_string()
}

/// The identity a node reports, decided from what could be fetched: the
/// hostname when there is one, otherwise the first 8 characters of the
/// fallback token.
pub fn node_identity_from(hostname_text: Option<String>, fallback: &str) -> (r: String)
    requires
        hostname_text is None ==> fallback@.len() >= 8,
    ensures
        match hostname_text {
            Some(name) => r@ == name@,
            None => r@ == fallback@.subrange(0, 8),
        },
{
    match hostname_text {
        Some(name) => name,
        None => fallback.substring_char(0, 8).to_owned(),
    }
}

/// The node identity used in object names: the hostname, or the first 8
/// characters of a fresh random UUID when no hostname is available. What
/// the machine reports is environmental, so the exact outcome is stated on
/// `node_identity_from`, which this composes with the two fetches.
pub fn get_node_identity() -> (r: String) {
    let hostname_text = fetch_hostname();
    match hostname_text {
        Some(name) => node_identity_from(Some(name), ""),
        None => {
            let token = fresh_uuid_string();
            node_identity_from(None, token.as_str())
        },
    }
}

} // verus!
