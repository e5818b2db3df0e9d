use lab1_chat::cipher::EncryptionMethod;
use lab1_chat::client::{ClientAction, ClientSocket};
use lab1_chat::messages::{JsonField, JsonObject};
use lab1_chat::protocol::{Events, Interest};
use lab1_chat::server::{ServerDispatch, ServerMessage, SocketServer, SERVER_TOKEN};

fn ev(readable: bool, writable: bool) -> Events {
    Events { readable, writable, error: false, hup: false }
}

fn json(entries: Vec<(&str, JsonField)>) -> JsonObject {
    let mut o = JsonObject::new();
    for (k, v) in entries {
        o.insert(k, v);
    }
    o
}

fn num(n: u32) -> JsonField {
    JsonField::Other(n.to_string())
}

fn text(s: &str) -> JsonField {
    JsonField::Str(String::from(s))
}

/// Runs the whole handshake between a library client and the library server,
/// passing each message along as the JSON object it travels in.
fn connect(server: &mut SocketServer, name: &str, method: EncryptionMethod) -> (ClientSocket, usize) {
    let token = server.handle_new_connection();
    let mut client = ClientSocket::new(String::from(name), method);

    assert!(matches!(client.ready(ev(false, true)).action, ClientAction::SendParamRequest(_)));
    let r = server.client_readable(token, &json(vec![("request", text("keys"))]), Some((29, 2)));
    assert_eq!(r, Ok((Interest::Writable, false)));

    let (p, g) = match server.client_writable(token) {
        Some((ServerMessage::Params(m), _)) => (m.p, m.g),
        other => panic!("unexpected {:?}", other),
    };
    assert!(matches!(client.ready(ev(true, false)).action, ClientAction::ReadParams));
    client.read_params(&json(vec![("p", num(p)), ("g", num(g))])).unwrap();

    let b = match server.client_writable(token) {
        Some((ServerMessage::PublicNumber(m), _)) => m.val,
        other => panic!("unexpected {:?}", other),
    };
    let a = match client.ready(ev(true, true)).action {
        ClientAction::SendPublicNumber(m) => m.val,
        other => panic!("unexpected {:?}", other),
    };
    assert!(server.client_readable(token, &json(vec![("a", num(a))]), None).is_ok());
    assert!(matches!(client.ready(ev(true, false)).action, ClientAction::ReadServerPublic));
    client.read_server_public(&json(vec![("b", num(b))])).unwrap();

    if method != EncryptionMethod::Plain {
        match client.ready(ev(false, true)).action {
            ClientAction::SendEncryptionMethod(m) => {
                let r = server.client_readable(token, &json(vec![("encryption", text(&m.method_str()))]), None);
                assert_eq!(r, Ok((Interest::Readable, false)));
            }
            other => panic!("unexpected {:?}", other),
        }
    }
    (client, token)
}

#[test]
fn clients_with_different_ciphers_chat_through_the_server() {
    let mut server = SocketServer::new();
    let (mut ann, ann_token) = connect(&mut server, "ann", EncryptionMethod::Xor);
    let (mut bob, bob_token) = connect(&mut server, "bob", EncryptionMethod::Cezar);

    ann.notify(Some(String::from("hello, bob")));
    let sent = match ann.ready(ev(false, true)).action {
        ClientAction::SendMessage(m) => m,
        other => panic!("unexpected {:?}", other),
    };
    let r = server.client_readable(
        ann_token,
        &json(vec![("msg", text(&sent.content)), ("from", text(&sent.sender))]),
        None,
    );
    assert_eq!(r, Ok((Interest::Readable, true)));
    assert_eq!(server.notify_broadcast(), vec![bob_token]);

    let relayed = match server.client_writable(bob_token) {
        Some((ServerMessage::Normal(m), Some(Interest::Readable))) => m,
        other => panic!("unexpected {:?}", other),
    };
    assert!(matches!(bob.ready(ev(true, false)).action, ClientAction::ReadMessage));
    let received = bob.read_message(&json(vec![("msg", text(&relayed.content)), ("from", text(&relayed.sender))]));
    assert_eq!(received, Some((String::from("ann"), String::from("hello, bob"))));
}

#[test]
fn a_client_without_encryption_chats_in_base64() {
    let mut server = SocketServer::new();
    let (mut ann, ann_token) = connect(&mut server, "ann", EncryptionMethod::Plain);
    let (mut bob, bob_token) = connect(&mut server, "bob", EncryptionMethod::Plain);
    // the server has read no cipher, so it reads the first chat message after the numbers
    ann.notify(Some(String::from("hi")));
    let sent = match ann.ready(ev(false, true)).action {
        ClientAction::SendMessage(m) => m,
        other => panic!("unexpected {:?}", other),
    };
    assert_eq!(sent.content, "aGk=");
    let r = server.client_readable(ann_token, &json(vec![("msg", text(&sent.content)), ("from", text("ann"))]), None);
    assert_eq!(r, Ok((Interest::Readable, true)));
    assert_eq!(server.notify_broadcast(), vec![bob_token]);
    let relayed = match server.client_writable(bob_token) {
        Some((ServerMessage::Normal(m), _)) => m,
        other => panic!("unexpected {:?}", other),
    };
    assert_eq!(relayed.content, "aGk=");
    bob.ready(ev(true, false));
    assert_eq!(
        bob.read_message(&json(vec![("msg", text(&relayed.content)), ("from", text("ann"))])),
        Some((String::from("ann"), String::from("hi")))
    );
}

#[test]
fn server_dispatches_events_by_token() {
    let hup = Events { readable: true, writable: false, error: false, hup: true };
    assert_eq!(SocketServer::ready(SERVER_TOKEN, hup), ServerDispatch::ListenerFailed);
    assert_eq!(SocketServer::ready(SERVER_TOKEN, ev(true, false)), ServerDispatch::AcceptConnection);
    assert_eq!(SocketServer::ready(SERVER_TOKEN, ev(false, true)), ServerDispatch::Ignore);
    assert_eq!(SocketServer::ready(3, hup), ServerDispatch::DropClient);
    assert_eq!(SocketServer::ready(3, ev(false, true)), ServerDispatch::ClientEvent);
}

#[test]
fn tokens_count_up_from_one() {
    let mut server = SocketServer::new();
    assert_eq!(server.token_counter(), 1);
    assert_eq!(server.handle_new_connection(), 1);
    assert_eq!(server.token_counter(), 2);
    assert!(server.handle_client_err(1));
    assert_eq!(server.handle_new_connection(), 2);
}

#[test]
fn a_sender_gets_no_copy_of_its_own_message() {
    let mut server = SocketServer::new();
    let (mut ann, ann_token) = connect(&mut server, "ann", EncryptionMethod::Xor);
    ann.notify(Some(String::from("alone")));
    let sent = match ann.ready(ev(false, true)).action {
        ClientAction::SendMessage(m) => m,
        other => panic!("unexpected {:?}", other),
    };
    let r = server.client_readable(ann_token, &json(vec![("msg", text(&sent.content)), ("from", text("ann"))]), None);
    assert_eq!(r, Ok((Interest::Readable, true)));
    assert_eq!(server.notify_broadcast(), Vec::<usize>::new());
    assert!(server.client_writable(ann_token).is_none());
}
