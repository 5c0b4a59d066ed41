//! End-to-end scenarios against a mock WebSocket peer over an in-memory
//! duplex stream: the transport steps mirror what the application shell
//! does around the library.

use futures_util::SinkExt;
use futures_util::StreamExt;
use tokio::io::DuplexStream;
use tokio_tungstenite::WebSocketStream;
use tokio_tungstenite::accept_hdr_async;
use tokio_tungstenite::client_async;
use tokio_tungstenite::tungstenite;
use tokio_tungstenite::tungstenite::client::IntoClientRequest;
use tokio_tungstenite::tungstenite::http;
use ws_registry::dispatch::ExchangeOutcome;
use ws_registry::dispatch::complete_dispatch;
use ws_registry::dispatch::prepare_dispatch;
use ws_registry::handshake::ConnectionParameters;
use ws_registry::handshake::UpgradeRequest;
use ws_registry::handshake::build;
use ws_registry::registry::Registry;
use ws_registry::wire::RequestEnvelope;
use ws_registry::wire::WireValue;

type Socket = WebSocketStream<DuplexStream>;

/// The transport's conversion of the library's request descriptor: the
/// custom headers go through `httparse` exactly as the shell sends them,
/// and the transport-required upgrade headers are added around them.
fn to_client_request(req: &UpgradeRequest) -> tungstenite::handshake::client::Request {
    let mut headers: Vec<httparse::Header> = req
        .headers
        .iter()
        .map(|h| httparse::Header {
            name: h.name.as_str(),
            value: h.value.as_bytes(),
        })
        .collect();
    let parsed = httparse::Request {
        method: Some(req.method.as_str()),
        path: Some(req.path.as_str()),
        version: Some(req.version),
        headers: &mut headers,
    };
    let mut out = parsed.into_client_request().unwrap();
    let uri = out.uri().clone();
    let host = match uri.port_u16() {
        Some(p) => format!("{}:{}", uri.host().unwrap(), p),
        None => uri.host().unwrap().to_string(),
    };
    let h = out.headers_mut();
    h.insert("Host", host.parse().unwrap());
    h.insert("Connection", "Upgrade".parse().unwrap());
    h.insert("Upgrade", "websocket".parse().unwrap());
    h.insert("Sec-WebSocket-Version", "13".parse().unwrap());
    out
}

fn params() -> ConnectionParameters {
    ConnectionParameters {
        endpoint: String::from("ws://peer.test/socket"),
        db_name: String::from("mydb"),
        schema: String::from("public"),
        username: String::from("alice"),
        password: String::from("secret"),
    }
}

/// A one-connection mock peer on the far end of the duplex stream.  When
/// `accept` holds it checks the authorization header and the nonce,
/// upgrades, and echoes one text frame; otherwise it declines the upgrade.
fn spawn_server(io: DuplexStream, accept: bool) -> tokio::task::JoinHandle<()> {
    tokio::spawn(async move {
        let callback = move |req: &tungstenite::handshake::server::Request,
                             resp: tungstenite::handshake::server::Response|
              -> Result<
            tungstenite::handshake::server::Response,
            tungstenite::handshake::server::ErrorResponse,
        > {
            if !accept {
                return Err(http::Response::builder()
                    .status(403)
                    .body(Some(String::from("declined")))
                    .unwrap());
            }
            let auth_ok = req
                .headers()
                .get("authorization")
                .map(|v| v == "alice:secret")
                .unwrap_or(false);
            let nonce_ok = req
                .headers()
                .get("sec-websocket-key")
                .map(|v| !v.is_empty())
                .unwrap_or(false);
            if !auth_ok || !nonce_ok {
                return Err(http::Response::builder()
                    .status(401)
                    .body(Some(String::from("bad credentials")))
                    .unwrap());
            }
            Ok(resp)
        };
        if let Ok(mut ws) = accept_hdr_async(io, callback).await {
            if let Some(Ok(msg)) = ws.next().await {
                if msg.is_text() {
                    let _ = ws.send(msg).await;
                }
            }
            let _ = ws.close(None).await;
        }
    })
}

/// One request/response exchange over an open socket.
async fn exchange(sock: &mut Socket, frame: String) -> Option<String> {
    sock.send(tungstenite::Message::text(frame)).await.ok()?;
    let msg = sock.next().await?.ok()?;
    Some(msg.into_text().ok()?.as_str().to_string())
}

#[test]
fn authenticated_connect_registers_a_socket() {
    let rt = tokio::runtime::Runtime::new().unwrap();
    rt.block_on(async {
        let (client_io, server_io) = tokio::io::duplex(4096);
        let server = spawn_server(server_io, true);
        let mut reg: Registry<Socket> = Registry::new();
        let id = String::from("c1");
        let req = build(&params()).unwrap();
        let (sock, _resp) = client_async(to_client_request(&req), client_io).await.unwrap();
        reg.insert(id.clone(), sock);
        assert!(reg.lookup(&id).is_some());
        drop(reg.remove(&id));
        server.await.unwrap();
    });
}

#[test]
fn rejected_upgrade_leaves_no_entry() {
    let rt = tokio::runtime::Runtime::new().unwrap();
    rt.block_on(async {
        let (client_io, server_io) = tokio::io::duplex(4096);
        let server = spawn_server(server_io, false);
        let mut reg: Registry<Socket> = Registry::new();
        let id = String::from("c1");
        let req = build(&params()).unwrap();
        match client_async(to_client_request(&req), client_io).await {
            Ok(_) => panic!("the mock peer should have declined the upgrade"),
            Err(tungstenite::Error::Http(resp)) => assert_eq!(resp.status(), 403),
            Err(other) => panic!("expected an HTTP rejection, got {other:?}"),
        }
        assert!(reg.lookup(&id).is_none());
        assert!(reg.remove(&id).is_none());
        server.await.unwrap();
    });
}

#[test]
fn wrong_credentials_are_rejected() {
    let rt = tokio::runtime::Runtime::new().unwrap();
    rt.block_on(async {
        let (client_io, server_io) = tokio::io::duplex(4096);
        let server = spawn_server(server_io, true);
        let mut p = params();
        p.password = String::from("wrong");
        let req = build(&p).unwrap();
        match client_async(to_client_request(&req), client_io).await {
            Ok(_) => panic!("the mock peer should have refused the credentials"),
            Err(tungstenite::Error::Http(resp)) => assert_eq!(resp.status(), 401),
            Err(other) => panic!("expected an HTTP rejection, got {other:?}"),
        }
        server.await.unwrap();
    });
}

#[test]
fn concurrent_dispatch_on_two_identifiers() {
    let rt = tokio::runtime::Runtime::new().unwrap();
    rt.block_on(async {
        let (io1, peer1) = tokio::io::duplex(4096);
        let (io2, peer2) = tokio::io::duplex(4096);
        let server1 = spawn_server(peer1, true);
        let server2 = spawn_server(peer2, true);
        let mut reg: Registry<Socket> = Registry::new();
        let id1 = String::from("c1");
        let id2 = String::from("c2");
        let req = build(&params()).unwrap();
        let (s1, _) = client_async(to_client_request(&req), io1).await.unwrap();
        let req = build(&params()).unwrap();
        let (s2, _) = client_async(to_client_request(&req), io2).await.unwrap();
        reg.insert(id1.clone(), s1);
        reg.insert(id2.clone(), s2);

        let env = RequestEnvelope {
            action: String::from("select"),
            table: String::from("t"),
            data: Vec::new(),
        };
        let f1 = prepare_dispatch(&reg, &id1, &env).unwrap();
        let f2 = prepare_dispatch(&reg, &id2, &env).unwrap();
        let mut s1 = reg.remove(&id1).unwrap();
        let mut s2 = reg.remove(&id2).unwrap();

        let (r1, r2) =
            futures_util::future::join(exchange(&mut s1, f1), exchange(&mut s2, f2)).await;
        let t1 = r1.expect("the first exchange should complete");
        let t2 = r2.expect("the second exchange should complete");

        reg.insert(id1.clone(), s1);
        reg.insert(id2.clone(), s2);
        let v1 = complete_dispatch(&mut reg, &id1, ExchangeOutcome::Reply(t1)).unwrap();
        let v2 = complete_dispatch(&mut reg, &id2, ExchangeOutcome::Reply(t2)).unwrap();
        assert_eq!(v1, v2);
        assert_eq!(v1["action"].as_str(), Some("select"));
        assert!(reg.lookup(&id1).is_some());
        assert!(reg.lookup(&id2).is_some());
        drop(reg.remove(&id1));
        drop(reg.remove(&id2));
        server1.await.unwrap();
        server2.await.unwrap();
    });
}

#[test]
fn dispatch_echo_round_trip() {
    let rt = tokio::runtime::Runtime::new().unwrap();
    rt.block_on(async {
        let (client_io, server_io) = tokio::io::duplex(4096);
        let server = spawn_server(server_io, true);
        let mut reg: Registry<Socket> = Registry::new();
        let id = String::from("c1");
        let req = build(&params()).unwrap();
        let (sock, _resp) = client_async(to_client_request(&req), client_io).await.unwrap();
        reg.insert(id.clone(), sock);

        let env = RequestEnvelope {
            action: String::from("insert"),
            table: String::from("t"),
            data: vec![(String::from("x"), WireValue::Int(1))],
        };
        let frame = prepare_dispatch(&reg, &id, &env).unwrap();

        // The exchange itself: the socket is taken out for exclusive use,
        // the registry is never borrowed across the I/O.
        let mut sock = reg.remove(&id).unwrap();
        let mut outcome = ExchangeOutcome::TransportFailed;
        if sock.send(tungstenite::Message::text(frame)).await.is_ok() {
            if let Some(Ok(msg)) = sock.next().await {
                if let Ok(text) = msg.into_text() {
                    outcome = ExchangeOutcome::Reply(text.as_str().to_string());
                }
            }
        }
        let ok = matches!(outcome, ExchangeOutcome::Reply(_));
        if ok {
            reg.insert(id.clone(), sock);
        }
        let value = complete_dispatch(&mut reg, &id, outcome).unwrap();
        assert_eq!(value["action"].as_str(), Some("insert"));
        assert_eq!(value["table"].as_str(), Some("t"));
        assert_eq!(value["data"]["x"].as_i64(), Some(1));
        assert!(reg.lookup(&id).is_some());
        drop(reg.remove(&id));
        server.await.unwrap();
    });
}
