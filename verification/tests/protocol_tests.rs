use lab1_chat::cipher::EncryptionMethod;
use lab1_chat::client::{ClientAction, ClientSocket};
use lab1_chat::key_exchange::{find_secret, generate_public_number};
use lab1_chat::messages::{open_text, seal_text, JsonField, JsonObject, SendEncryptionMethodMessage};
use lab1_chat::protocol::{Events, Interest};
use lab1_chat::server::{ServerMessage, SocketServer};

fn ev(readable: bool, writable: bool) -> Events {
    Events { readable, writable, error: false, hup: false }
}

fn obj(entries: &[(&str, JsonField)]) -> JsonObject {
    let mut o = JsonObject::new();
    for (k, v) in entries {
        let v = match v {
            JsonField::Null => JsonField::Null,
            JsonField::Str(s) => JsonField::Str(s.clone()),
            JsonField::Other(s) => JsonField::Other(s.clone()),
        };
        o.insert(k, v);
    }
    o
}

fn num(n: u32) -> JsonField {
    JsonField::Other(n.to_string())
}

fn text(s: &str) -> JsonField {
    JsonField::Str(String::from(s))
}

#[test]
fn json_object_reads_like_json() {
    let mut o = JsonObject::new();
    assert!(o.is_null("a"));
    assert_eq!(o.text("a"), "null");
    o.insert("a", num(5));
    o.insert("b", text("x"));
    o.insert("a", num(6));
    assert_eq!(o.text("a"), "6");
    assert_eq!(o.text("b"), "x");
    assert!(!o.is_null("b"));
    assert!(!o.is_single_string("b", "x"));
    assert!(obj(&[("request", text("keys"))]).is_single_string("request", "keys"));
    assert!(!obj(&[("request", num(1))]).is_single_string("request", "1"));
}

#[test]
fn encryption_method_names() {
    assert_eq!(SendEncryptionMethodMessage::new(EncryptionMethod::Plain).method_str(), "none");
    assert_eq!(SendEncryptionMethodMessage::new(EncryptionMethod::Xor).method_str(), "xor");
    assert_eq!(SendEncryptionMethodMessage::new(EncryptionMethod::Cezar).method_str(), "cezar");
}

#[test]
fn client_shuts_down_on_error_or_hangup() {
    let mut c = ClientSocket::new(String::from("ann"), EncryptionMethod::Plain);
    let r = c.ready(Events { readable: true, writable: true, error: true, hup: false });
    assert!(matches!(r.action, ClientAction::Shutdown));
    assert_eq!(r.interest, None);
    let r = c.ready(Events { readable: false, writable: false, error: false, hup: true });
    assert!(matches!(r.action, ClientAction::Shutdown));
}

#[test]
fn client_handshake_with_encryption() {
    let mut c = ClientSocket::new(String::from("ann"), EncryptionMethod::Xor);
    let r = c.ready(ev(false, true));
    assert!(matches!(r.action, ClientAction::SendParamRequest(_)));
    assert_eq!(r.interest, Some(Interest::Readable));
    // nothing happens until the parameters can be read
    let r = c.ready(ev(false, true));
    assert!(matches!(r.action, ClientAction::Idle));
    assert_eq!(r.interest, None);
    let r = c.ready(ev(true, false));
    assert!(matches!(r.action, ClientAction::ReadParams));
    assert_eq!(r.interest, Some(Interest::ReadableWritable));
    assert!(c.read_params(&obj(&[("p", num(23)), ("g", num(5))])).is_ok());
    let r = c.ready(ev(true, true));
    let a_public = match r.action {
        ClientAction::SendPublicNumber(m) => {
            assert_eq!(m.key, "a");
            assert!(m.val < 23);
            m.val
        }
        other => panic!("unexpected {:?}", other),
    };
    assert_eq!(r.interest, Some(Interest::Readable));
    let r = c.ready(ev(true, false));
    assert!(matches!(r.action, ClientAction::ReadServerPublic));
    assert_eq!(r.interest, Some(Interest::Writable));
    let b = 9;
    let b_public = generate_public_number(23, 5, b);
    assert!(c.read_server_public(&obj(&[("b", num(b_public))])).is_ok());
    let r = c.ready(ev(false, true));
    match r.action {
        ClientAction::SendEncryptionMethod(m) => assert_eq!(m.method, EncryptionMethod::Xor),
        other => panic!("unexpected {:?}", other),
    }
    assert_eq!(r.interest, Some(Interest::Readable));
    // the server's secret, found from the client's public number
    let server_secret = find_secret(a_public, b, 23);
    c.notify(Some(String::from("hello")));
    c.notify(None);
    let r = c.ready(ev(true, true));
    match r.action {
        ClientAction::SendMessage(m) => {
            assert_eq!(m.sender, "ann");
            assert_eq!(open_text(&m.content, &EncryptionMethod::Xor, &server_secret), Some(String::from("hello")));
        }
        other => panic!("unexpected {:?}", other),
    }
    // no message waits: a writable event now reads if readable
    let r = c.ready(ev(true, true));
    assert!(matches!(r.action, ClientAction::ReadMessage));
    let incoming = obj(&[("msg", text(&seal_text(&String::from("hi ann"), &EncryptionMethod::Xor, &server_secret))), ("from", text("bob"))]);
    assert_eq!(c.read_message(&incoming), Some((String::from("bob"), String::from("hi ann"))));
}

#[test]
fn client_without_encryption_skips_the_cipher_message() {
    let mut c = ClientSocket::new(String::from("anonymous"), EncryptionMethod::Plain);
    c.ready(ev(false, true));
    c.ready(ev(true, false));
    assert!(c.read_params(&obj(&[("p", num(23)), ("g", num(5))])).is_ok());
    let r = c.ready(ev(true, false));
    assert!(matches!(r.action, ClientAction::ReadServerPublic));
    assert!(c.read_server_public(&obj(&[("b", num(19))])).is_ok());
    let r = c.ready(ev(false, true));
    assert!(matches!(r.action, ClientAction::SendPublicNumber(_)));
    assert_eq!(r.interest, Some(Interest::Readable));
    // connected: with nothing queued, writable alone does nothing
    let r = c.ready(ev(false, true));
    assert!(matches!(r.action, ClientAction::Idle));
}

#[test]
fn client_refuses_unreadable_numbers() {
    let mut c = ClientSocket::new(String::from("ann"), EncryptionMethod::Plain);
    assert!(c.read_params(&obj(&[("p", text("x")), ("g", num(5))])).is_err());
    assert!(c.read_params(&obj(&[("g", num(5))])).is_err());
    assert!(c.read_params(&obj(&[("p", text("+23")), ("g", num(5))])).is_ok());
    assert!(c.read_server_public(&obj(&[("b", text("4294967296"))])).is_err());
    assert!(c.read_message(&obj(&[("msg", text("%%%")), ("from", text("x"))])).is_none());
}

#[test]
fn client_needs_a_nonzero_modulus_to_make_numbers() {
    let mut c = ClientSocket::new(String::from("ann"), EncryptionMethod::Plain);
    c.ready(ev(false, true));
    c.ready(ev(true, false));
    assert!(c.read_params(&obj(&[("p", num(0)), ("g", num(5))])).is_ok());
    assert!(!c.can_react(ev(false, true)));
    assert!(c.can_react(ev(true, false)));
}

fn handshake(server: &mut SocketServer, token: usize, a: u32, method: &str) -> u32 {
    assert!(server.needs_parameters(token));
    let r = server.client_readable(token, &obj(&[("request", text("keys"))]), Some((23, 5)));
    assert_eq!(r, Ok((Interest::Writable, false)));
    match server.client_writable(token) {
        Some((ServerMessage::Params(m), Some(Interest::ReadableWritable))) => {
            assert_eq!((m.p, m.g), (23, 5));
        }
        other => panic!("unexpected {:?}", other),
    }
    let b_public = match server.client_writable(token) {
        Some((ServerMessage::PublicNumber(m), Some(Interest::Readable))) => {
            assert_eq!(m.key, "b");
            m.val
        }
        other => panic!("unexpected {:?}", other),
    };
    let r = server.client_readable(token, &obj(&[("a", num(generate_public_number(23, 5, a)))]), None);
    assert_eq!(r, Ok((Interest::Readable, false)));
    let r = server.client_readable(token, &obj(&[("encryption", text(method))]), None);
    assert_eq!(r, Ok((Interest::Readable, false)));
    find_secret(b_public, a, 23)
}

#[test]
fn server_relays_a_message_to_the_other_clients_only() {
    let mut server = SocketServer::new();
    let t1 = server.handle_new_connection();
    let t2 = server.handle_new_connection();
    let t3 = server.handle_new_connection();
    assert_eq!((t1, t2, t3), (1, 2, 3));
    let s1 = handshake(&mut server, t1, 6, "xor");
    let s2 = handshake(&mut server, t2, 7, "cezar");
    let s3 = handshake(&mut server, t3, 8, "none");
    let sealed = seal_text(&String::from("hello all"), &EncryptionMethod::Xor, &s1);
    let r = server.client_readable(t1, &obj(&[("msg", text(&sealed)), ("from", text("ann"))]), None);
    assert_eq!(r, Ok((Interest::Readable, true)));
    let mut woken = server.notify_broadcast();
    woken.sort();
    assert_eq!(woken, vec![t2, t3]);
    assert!(server.client_writable(t1).is_none());
    match server.client_writable(t2) {
        Some((ServerMessage::Normal(m), Some(Interest::Readable))) => {
            assert_eq!(m.sender, "ann");
            assert_eq!(open_text(&m.content, &EncryptionMethod::Cezar, &s2), Some(String::from("hello all")));
        }
        other => panic!("unexpected {:?}", other),
    }
    match server.client_writable(t3) {
        Some((ServerMessage::Normal(m), Some(Interest::Readable))) => {
            assert_eq!(open_text(&m.content, &EncryptionMethod::Plain, &s3), Some(String::from("hello all")));
        }
        other => panic!("unexpected {:?}", other),
    }
}

#[test]
fn server_refuses_what_it_cannot_read() {
    let mut server = SocketServer::new();
    let t = server.handle_new_connection();
    assert!(server.client_readable(t, &obj(&[("request", text("other"))]), Some((23, 5))).is_err());
    assert!(server.client_readable(t, &obj(&[("request", text("keys")), ("x", num(1))]), Some((23, 5))).is_err());
    assert!(server.needs_parameters(t));
    assert!(server.client_readable(t, &obj(&[("request", text("keys"))]), Some((23, 5))).is_ok());
    // the client may not write again before the parameters are sent
    assert!(!server.can_read(t, false));
    assert!(server.can_write(t));
    server.client_writable(t);
    server.client_writable(t);
    assert!(server.client_readable(t, &obj(&[("a", text("nope"))]), None).is_err());
}

#[test]
fn server_forgets_a_client_after_an_error() {
    let mut server = SocketServer::new();
    let t1 = server.handle_new_connection();
    let t2 = server.handle_new_connection();
    assert!(server.handle_client_err(t1));
    assert!(!server.has_client(t1));
    assert!(server.has_client(t2));
    assert!(!server.handle_client_err(t1));
    assert_eq!(server.handle_new_connection(), 3);
}

#[test]
fn server_wakes_each_recipient_once_per_message() {
    let mut server = SocketServer::new();
    let t1 = server.handle_new_connection();
    let t2 = server.handle_new_connection();
    let t3 = server.handle_new_connection();
    let s1 = handshake(&mut server, t1, 6, "xor");
    let s2 = handshake(&mut server, t2, 7, "cezar");
    handshake(&mut server, t3, 8, "none");
    let m1 = seal_text(&String::from("one"), &EncryptionMethod::Xor, &s1);
    let m2 = seal_text(&String::from("two"), &EncryptionMethod::Cezar, &s2);
    assert!(server.client_readable(t1, &obj(&[("msg", text(&m1)), ("from", text("ann"))]), None).is_ok());
    assert!(server.client_readable(t2, &obj(&[("msg", text(&m2)), ("from", text("bob"))]), None).is_ok());
    let mut woken = server.notify_broadcast();
    woken.sort();
    assert_eq!(woken, vec![t1, t2, t3, t3]);
    assert!(server.notify_broadcast().is_empty());
}

#[test]
fn server_names_what_it_could_not_read() {
    let mut server = SocketServer::new();
    let t = server.handle_new_connection();
    assert_eq!(
        server.client_readable(t, &obj(&[("request", text("other"))]), Some((23, 5))),
        Err(String::from("Could not read valid param request"))
    );
    // a refused request leaves the record as it was: nothing is queued
    assert!(server.client_writable(t).is_none());
    assert!(server.needs_parameters(t));

    let mut server = SocketServer::new();
    let t = server.handle_new_connection();
    let s = handshake(&mut server, t, 6, "xor");
    assert_eq!(
        server.client_readable(t, &obj(&[("hello", text("there"))]), None),
        Err(String::from("Incorrect message"))
    );
    let sealed = seal_text(&String::from("hi"), &EncryptionMethod::Xor, &s);
    assert!(server.client_readable(t, &obj(&[("msg", text(&sealed)), ("from", text("ann"))]), None).is_ok());

    let mut server = SocketServer::new();
    let t = server.handle_new_connection();
    assert!(server.client_readable(t, &obj(&[("request", text("keys"))]), Some((23, 5))).is_ok());
    server.client_writable(t);
    server.client_writable(t);
    assert_eq!(
        server.client_readable(t, &obj(&[("a", text("nope"))]), None),
        Err(String::from("could not read the client's public number"))
    );
    assert!(server.client_readable(t, &obj(&[("a", num(generate_public_number(23, 5, 3)))]), None).is_ok());
    assert_eq!(
        server.client_readable(t, &obj(&[("hello", text("there"))]), None),
        Err(String::from("Incorrect encryption or message"))
    );
}
