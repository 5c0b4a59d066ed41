use ws_registry::errors::ConnectError;
use ws_registry::handshake::ConnectionParameters;
use ws_registry::handshake::build;

fn params(endpoint: &str) -> ConnectionParameters {
    ConnectionParameters {
        endpoint: String::from(endpoint),
        db_name: String::from("mydb"),
        schema: String::from("public"),
        username: String::from("alice"),
        password: String::from("secret"),
    }
}

#[test]
fn build_sets_authorization_and_nonce() {
    let req = build(&params("ws://example.com/socket")).unwrap();
    assert_eq!(req.method, "GET");
    assert_eq!(req.version, 1);
    assert_eq!(req.headers.len(), 2);
    assert_eq!(req.headers[0].name, "authorization");
    assert_eq!(req.headers[0].value, "alice:secret");
    assert_eq!(req.headers[1].name, "sec-websocket-key");
    assert_eq!(req.headers[1].value.len(), 24);
}

#[test]
fn build_attaches_db_and_schema_query_parameters() {
    let req = build(&params("ws://example.com/socket")).unwrap();
    assert!(req.path.starts_with("ws://example.com/socket?"));
    assert!(req.path.contains("db=mydb"));
    assert!(req.path.contains("schema=public"));
}

#[test]
fn build_keeps_existing_query_parameters() {
    let req = build(&params("ws://example.com/socket?x=1")).unwrap();
    assert!(req.path.contains("x=1"));
    assert!(req.path.contains("db=mydb"));
    assert!(req.path.contains("schema=public"));
}

#[test]
fn build_rejects_malformed_endpoints() {
    for bad in ["", "not a url", "://missing-scheme", "example.com/path"] {
        match build(&params(bad)) {
            Err(ConnectError::InvalidEndpoint) => {}
            other => panic!("expected InvalidEndpoint for {bad:?}, got {other:?}"),
        }
    }
}

#[test]
fn nonce_is_fresh_per_request() {
    let a = build(&params("ws://example.com/socket")).unwrap();
    let b = build(&params("ws://example.com/socket")).unwrap();
    assert_ne!(a.headers[1].value, b.headers[1].value);
}
