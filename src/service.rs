//! What the HTTP front end shows: the usage text, the address of a stored
//! paste, the text of each failure, and the backend's connection address.

use vstd::prelude::*;
use crate::paste_id::PasteId;
use crate::store::StoreError;

verus! {

/// The usage text served at the root path.
pub const USAGE: &'static str = "
    USAGE

      POST /

          accepts raw data in the body of the request and responds with a URL of
          a page containing the body's content

      GET /<id>

          retrieves the content for the paste with id `<id>`
    ";

/// Shown for a retrieval that finds nothing.
pub const NOT_FOUND_TEXT: &'static str = "No value stored here";

/// Host used when none is configured.
pub const DEFAULT_HOST: &'static str = "localhost";

/// The usage text of the service.
pub fn index() -> (r: &'static str)
    ensures
        r@ == USAGE@,
{
    USAGE
}

/// The address of the paste `id` under `base`: `base`, a slash, then `id`.
pub fn paste_url(base: &str, id: &PasteId) -> (r: String)
    ensures
        r@ == base@ + "/"@ + id@,
{
    let mut r = String::from_str(base);
    r.append("/");
    r.append(id.as_string().as_str());
    r
}

/// The connection address of the backend: `redis://:<password>@<host>`, with
/// an empty password and `localhost` for what is not configured.
pub fn connection_url(password: Option<String>, host: Option<String>) -> (r: String)
    ensures
        r@ == "redis://:"@ + (match password {
            Some(p) => p@,
            None => Seq::<char>::empty(),
        }) + "@"@ + (match host {
            Some(h) => h@,
            None => DEFAULT_HOST@,
        }),
{
    let mut r = String::from_str("redis://:");
    match password {
        Some(p) => r.append(p.as_str()),
        None => {
            assert(r@ + Seq::<char>::empty() =~= r@);
        },
    }
    r.append("@");
    match host {
        Some(h) => r.append(h.as_str()),
        None => r.append(DEFAULT_HOST),
    }
    r
}

impl StoreError {
    /// The text shown to a caller for this failure.
    pub fn message(&self) -> (r: &'static str)
        ensures
            *self == StoreError::BackendUnavailable ==> r@ == "Backend unavailable"@,
            *self == StoreError::WriteFailed ==> r@ == "Failed to store the paste"@,
    {
        match self {
            StoreError::BackendUnavailable => "Backend unavailable",
            StoreError::WriteFailed => "Failed to store the paste",
        }
    }
}

} // verus!
