//! The handshake builder: from connection parameters to an authenticated
//! upgrade request.
//!
//! The request carries the target URL with the database and schema names
//! attached as query parameters, an `authorization` header holding
//! `"{username}:{password}"` (plain concatenation, reproduced exactly for
//! wire compatibility with the peer), and the protocol-required random
//! upgrade nonce.  No network I/O happens here: the transport performs the
//! connection with the request this module built.

use vstd::prelude::*;
use vstd::string::StringExecFns;

use crate::errors::ConnectError;

verus! {

/// Everything needed to establish one connection.  Supplied once per
/// connect call and not retained afterwards.
#[derive(Clone, Debug)]
pub struct ConnectionParameters {
    pub endpoint: String,
    pub db_name: String,
    pub schema: String,
    pub username: String,
    pub password: String,
}

/// One header of the upgrade request.
#[derive(Clone, Debug)]
pub struct HeaderField {
    pub name: String,
    pub value: String,
}

/// The upgrade request the transport sends: method, target path, HTTP
/// minor version, and the custom headers.
#[derive(Clone, Debug)]
pub struct UpgradeRequest {
    pub method: String,
    pub path: String,
    pub version: u8,
    pub headers: Vec<HeaderField>,
}

/// The URL the `url` crate yields for this endpoint with `db` and `schema`
/// attached as query pairs.
pub uninterp spec fn url_with_params(base: Seq<char>, db: Seq<char>, schema: Seq<char>) -> Seq<char>;

/// Whether the `url` crate's grammar accepts this endpoint as a base URL.
pub uninterp spec fn endpoint_accepted(base: Seq<char>) -> bool;

/// The authorization header value: the username and password joined by a
/// colon.
pub open spec fn authorization_of(username: Seq<char>, password: Seq<char>) -> Seq<char> {
    username + ":"@ + password
}

#[verifier::external_type_specification]
#[verifier::external_body]
pub struct ExUrlParseError(url::ParseError);

/// Relies on `url::Url::parse_with_params`: it parses the base endpoint and
/// appends `db` and `schema` as query pairs, a result that depends on the
/// arguments alone; it returns `Err` exactly when the base endpoint is not
/// a URL its grammar accepts (appending the pairs never fails).
#[verifier::external_body]
fn parse_endpoint_with_params(endpoint: &str, db_name: &str, schema: &str) -> (r: Result<
    String,
    url::ParseError,
>)
    ensures
        r is Ok <==> endpoint_accepted(endpoint@),
        r matches Ok(u) ==> u@ == url_with_params(endpoint@, db_name@, schema@),
{
    match url::Url::parse_with_params(endpoint, &[("db", db_name), ("schema", schema)]) {
        Ok(u) => Ok(String::from(u.as_str())),
        Err(e) => Err(e),
    }
}

/// Relies on tungstenite's `generate_key` (reached through
/// `tokio_tungstenite`): the base64 encoding of 16 random bytes, hence
/// always 24 characters.  The value is random, so nothing more is promised
/// of it.
#[verifier::external_body]
fn generate_nonce() -> (r: String)
    ensures
        r@.len() == 24,
{
    tokio_tungstenite::tungstenite::handshake::client::generate_key()
}

/// Builds the authenticated upgrade request for these parameters.
///
/// On success the request is pinned down exactly: method `GET`, HTTP minor
/// version 1, the target path as the `url` crate renders the endpoint with
/// `db` and `schema` attached, and exactly two headers — `authorization`
/// holding `"{username}:{password}"`, and `sec-websocket-key` holding the
/// fresh 24-character upgrade nonce.  It succeeds exactly when the URL
/// grammar accepts the endpoint; the only failure is an endpoint that
/// grammar rejects, and it is reported, never a panic.
pub fn build(params: &ConnectionParameters) -> (r: Result<UpgradeRequest, ConnectError>)
    ensures
        r is Ok <==> endpoint_accepted(params.endpoint@),
        r matches Ok(req) ==> {
            &&& req.method@ == "GET"@
            &&& req.version == 1
            &&& req.path@ == url_with_params(params.endpoint@, params.db_name@, params.schema@)
            &&& req.headers@.len() == 2
            &&& req.headers@[0].name@ == "authorization"@
            &&& req.headers@[0].value@ == authorization_of(params.username@, params.password@)
            &&& req.headers@[1].name@ == "sec-websocket-key"@
            &&& req.headers@[1].value@.len() == 24
        },
        r matches Err(e) ==> e == ConnectError::InvalidEndpoint,
{
    let path = match parse_endpoint_with_params(
        params.endpoint.as_str(),
        params.db_name.as_str(),
        params.schema.as_str(),
    ) {
        Ok(u) => u,
        Err(_) => {
            return Err(ConnectError::InvalidEndpoint);
        },
    };
    let mut authorization = params.username.clone();
    authorization.append(":");
    authorization.append(params.password.as_str());
    let nonce = generate_nonce();
    let mut headers: Vec<HeaderField> = Vec::new();
    headers.push(HeaderField { name: "authorization".to_owned(), value: authorization });
    headers.push(HeaderField { name: "sec-websocket-key".to_owned(), value: nonce });
    Ok(UpgradeRequest { method: "GET".to_owned(), path, version: 1, headers })
}

} // verus!
