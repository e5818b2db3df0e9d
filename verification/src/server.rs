//! The server's side of the chat: one record per connected client, with its
//! handshake and its queue of outgoing messages, and the registry of all clients
//! with the messages waiting to be broadcast. Sockets and the event loop stay
//! with the caller.

use vstd::prelude::*;
use std::collections::{HashMap, VecDeque};
use crate::cipher::EncryptionMethod;
use crate::key_exchange::{mod_pow, generate_private_number, generate_public_number, find_secret, lemma_shared_secret_agrees};
use crate::client::ClientModel;
use crate::messages::{
    SendParamsMessage, SendPublicNumberMessage, NormalMessage, JsonObject, FieldView, field_text,
    lookup, parsed_u32, parse_u32, sealed_text, seal_text, opened_text, open_text,
};
use crate::protocol::{ClientState, Events, Interest, stage_rank, includes_writing, includes_reading};
use crate::messages::encryption_name;

verus! {

broadcast use vstd::std_specs::hash::group_hash_axioms;

/// A message that the server queues for a client.
#[derive(Debug)]
pub enum ServerMessage {
    Params(SendParamsMessage),
    PublicNumber(SendPublicNumberMessage),
    Normal(NormalMessage),
}

/// What a queued message carries.
pub enum Outgoing {
    Params(u32, u32),
    PublicNumber(Seq<char>, u32),
    /// The sender's nickname and the sealed text.
    Normal(Seq<char>, Seq<char>),
}

impl View for ServerMessage {
    type V = Outgoing;

    open spec fn view(&self) -> Outgoing {
        match self {
            ServerMessage::Params(m) => Outgoing::Params(m.p, m.g),
            ServerMessage::PublicNumber(m) => Outgoing::PublicNumber(m.key@, m.val),
            ServerMessage::Normal(m) => Outgoing::Normal(m.sender@, m.content@),
        }
    }
}

/// A chat message that one client sent, opened, waiting to go to the others.
#[derive(Debug)]
pub struct Broadcast {
    pub from: String,
    pub msg: String,
}

/// `json` is the parameter request `{"request": "keys"}`.
pub open spec fn is_param_request(json: Seq<(Seq<char>, FieldView)>) -> bool {
    json.len() == 1 && json[0].0 == "request"@ && json[0].1 == FieldView::Str("keys"@)
}

/// `json` names a cipher.
pub open spec fn names_encryption(json: Seq<(Seq<char>, FieldView)>) -> bool {
    !(lookup(json, "encryption"@) is Null)
}

/// `json` is a chat message.
pub open spec fn is_chat_message(json: Seq<(Seq<char>, FieldView)>) -> bool {
    !(lookup(json, "msg"@) is Null) && !(lookup(json, "from"@) is Null)
}

/// The cipher after a client names one: `"xor"` and `"cezar"` choose theirs, any
/// other name keeps the current one.
pub open spec fn chosen_encryption(name: Seq<char>, current: EncryptionMethod) -> EncryptionMethod {
    if name == "xor"@ {
        EncryptionMethod::Xor
    } else if name == "cezar"@ {
        EncryptionMethod::Cezar
    } else {
        current
    }
}

fn validate_param_req(json: &JsonObject) -> (b: bool)
    ensures
        b == is_param_request(json@),
{
    json.is_single_string("request", "keys")
}

fn is_valid_encryption_method(json: &JsonObject) -> (b: bool)
    ensures
        b == names_encryption(json@),
{
    proof {
        reveal_strlit("encryption");
    }
    !json.is_null("encryption")
}

fn is_valid_msg(json: &JsonObject) -> (b: bool)
    ensures
        b == is_chat_message(json@),
{
    proof {
        reveal_strlit("msg");
        reveal_strlit("from");
    }
    !json.is_null("msg") && !json.is_null("from")
}

/// The stage and the interest of a connection after the server has sent it the
/// oldest queued message; `more_waiting` says whether more messages wait.
pub open spec fn server_after_send(state: ClientState, more_waiting: bool) -> (ClientState, Option<Interest>) {
    match state {
        ClientState::ParamReqSent => (ClientState::ParamsReceived, Some(Interest::ReadableWritable)),
        ClientState::ParamsReceived => (ClientState::ServerNumberSent, Some(Interest::Readable)),
        ClientState::ClientNumberSent => (ClientState::NumbersExchanged, Some(Interest::Readable)),
        ClientState::Connected => (
            ClientState::Connected,
            Some(if more_waiting { Interest::Writable } else { Interest::Readable }),
        ),
        _ => (state, None),
    }
}

/// The stage and the interest of a connection after the server has read from it.
pub open spec fn server_after_read(state: ClientState) -> (ClientState, Interest) {
    match state {
        ClientState::NotConnected => (ClientState::ParamReqSent, Interest::Writable),
        ClientState::ParamsReceived => (ClientState::ClientNumberSent, Interest::Writable),
        ClientState::ServerNumberSent => (ClientState::NumbersExchanged, Interest::Readable),
        _ => (ClientState::Connected, Interest::Readable),
    }
}

/// The server's side of a handshake never goes back, whether it sends or reads.
pub proof fn lemma_server_never_goes_back(state: ClientState, more_waiting: bool)
    ensures
        stage_rank(server_after_send(state, more_waiting).0) >= stage_rank(state),
        state != ClientState::ParamReqSent && state != ClientState::ClientNumberSent
            ==> stage_rank(server_after_read(state).0) >= stage_rank(state),
        state == ClientState::Connected ==> server_after_send(state, more_waiting).0 == ClientState::Connected
            && server_after_read(state).0 == ClientState::Connected,
{
}

/// The server takes the cipher that a client names: whatever cipher a client
/// chooses, the name it sends makes the server, which starts unencrypted, use it.
pub proof fn lemma_server_takes_named_cipher(method: EncryptionMethod)
    ensures
        chosen_encryption(encryption_name(method), EncryptionMethod::Plain) == method,
{
    reveal_strlit("none");
    reveal_strlit("xor");
    reveal_strlit("cezar");
    assert("none"@ != "xor"@) by {
        assert("none"@[0] != "xor"@[0]);
    }
    assert("none"@ != "cezar"@) by {
        assert("none"@[0] != "cezar"@[0]);
    }
    assert("xor"@ != "cezar"@) by {
        assert("xor"@[0] != "cezar"@[0]);
    }
}

/// A client and the server's record of it find the same secret once each holds
/// the other's public number: with the same `p` and `g`, where the client holds
/// `g^b mod p` for the server's private `b` and the server holds `g^a mod p` for the
/// client's private `a`, both compute `g^(a*b) mod p`.
pub proof fn lemma_client_and_server_share_the_secret(c: ClientModel, s: ServerClientModel)
    requires
        c.p == s.p,
        c.g == s.g,
        c.p > 0,
        c.public == mod_pow(c.g as int, s.private as nat, c.p as int),
        s.public == mod_pow(s.g as int, c.private as nat, s.p as int),
    ensures
        mod_pow(c.public as int, c.private as nat, c.p as int) == mod_pow(s.public as int, s.private as nat, s.p as int),
        mod_pow(c.public as int, c.private as nat, c.p as int) == mod_pow(c.g as int, (c.private * s.private) as nat, c.p as int),
{
    lemma_shared_secret_agrees(c.p, c.g, c.private, s.private);
}

/// What the server knows and holds for one client.
pub struct ServerClientModel {
    pub token: usize,
    pub state: ClientState,
    pub queue: Seq<Outgoing>,
    pub p: u32,
    pub g: u32,
    pub private: u32,
    pub public: u32,
    pub secret: u32,
    pub encryption: EncryptionMethod,
}

/// The server's writing is defined: no message waits in the stage where none can,
/// and a public number is only made modulo a nonzero `p`.
pub open spec fn write_defined(c: ServerClientModel) -> bool {
    c.queue.len() > 0 ==> (c.state != ClientState::ServerNumberSent && (c.state
        == ClientState::ParamReqSent ==> c.p > 0))
}

/// The server's reading is defined: the client may write in this stage, the
/// parameters are at hand for a parameter request, and the secret is found
/// modulo a nonzero `p`.
pub open spec fn read_defined(c: ServerClientModel, has_params: bool) -> bool {
    match c.state {
        ClientState::NotConnected => has_params,
        ClientState::ParamReqSent => false,
        ClientState::ClientNumberSent => false,
        ClientState::NumbersExchanged => c.p > 0,
        _ => true,
    }
}

/// A broadcast item as its sender and its text.
pub open spec fn broadcast_view(b: &Option<Broadcast>) -> Option<(Seq<char>, Seq<char>)> {
    match b {
        Some(item) => Some((item.from@, item.msg@)),
        None => None,
    }
}

/// The outcome of a read as the contracts speak of it.
pub open spec fn read_result_view(r: &Result<(Interest, Option<Broadcast>), String>) -> Result<(Interest, Option<(Seq<char>, Seq<char>)>), Seq<char>> {
    match r {
        Ok((i, b)) => Ok((*i, broadcast_view(b))),
        Err(e) => Err(e@),
    }
}

/// The error that a read gives, in the stage `state`, of what the client sent.
pub open spec fn read_error(state: ClientState, json: Seq<(Seq<char>, FieldView)>) -> Seq<char> {
    match state {
        ClientState::NotConnected => "Could not read valid param request"@,
        ClientState::ParamsReceived | ClientState::ServerNumberSent => "could not read the client's public number"@,
        ClientState::NumbersExchanged => if is_chat_message(json) {
            "Incorrect message"@
        } else {
            "Incorrect encryption or message"@
        },
        _ => "Incorrect message"@,
    }
}

/// How a read moves a client's record from `old` to `new` with outcome `r`.
pub open spec fn readable_step(
    old: ServerClientModel,
    new: ServerClientModel,
    json: Seq<(Seq<char>, FieldView)>,
    params: Option<(u32, u32)>,
    r: Result<(Interest, Option<(Seq<char>, Seq<char>)>), Seq<char>>,
) -> bool {
    &&& r matches Ok((i, _)) ==> new.state == server_after_read(old.state).0 && i == server_after_read(old.state).1
    &&& r matches Err(e) ==> e == read_error(old.state, json)
    &&& r is Err && old.state != ClientState::NumbersExchanged ==> new == old
    &&& new.token == old.token
    &&& old.state == ClientState::NotConnected ==> {
        &&& (r is Ok <==> is_param_request(json))
        &&& r matches Ok((_, b)) ==> (b is None) && new == (ServerClientModel {
            state: ClientState::ParamReqSent,
            p: params.unwrap().0,
            g: params.unwrap().1,
            queue: old.queue.push(Outgoing::Params(params.unwrap().0, params.unwrap().1)),
            ..old
        })
    }
    &&& old.state == ClientState::ParamsReceived || old.state == ClientState::ServerNumberSent ==> {
        &&& (r is Ok <==> parsed_u32(field_text(lookup(json, "a"@))) is Some)
        &&& r matches Ok((_, b)) ==> (b is None) && new == (ServerClientModel {
            state: server_after_read(old.state).0,
            public: parsed_u32(field_text(lookup(json, "a"@))).unwrap(),
            ..old
        })
    }
    &&& old.state == ClientState::NumbersExchanged ==> {
        let secret = mod_pow(old.public as int, old.private as nat, old.p as int) as u32;
        &&& new.secret == secret
        &&& r is Err ==> new == (ServerClientModel { secret: secret, ..old })
        &&& (r is Ok <==> (names_encryption(json) || (is_chat_message(json)
            && opened_text(field_text(lookup(json, "msg"@)), old.encryption, secret) is Some)))
        &&& r is Ok && names_encryption(json) ==> (r matches Ok((_, None))) && new == (ServerClientModel {
            state: ClientState::Connected,
            secret: secret,
            encryption: chosen_encryption(field_text(lookup(json, "encryption"@)), old.encryption),
            ..old
        })
        &&& r is Ok && !names_encryption(json) ==> new == (ServerClientModel {
            state: ClientState::Connected,
            secret: secret,
            ..old
        }) && (r matches Ok((_, Some(item))) && item.0 == field_text(lookup(json, "from"@))
            && opened_text(field_text(lookup(json, "msg"@)), old.encryption, secret) == Some(item.1))
    }
    &&& old.state == ClientState::Connected ==> {
        &&& new == old
        &&& (r is Ok <==> (is_chat_message(json)
            && opened_text(field_text(lookup(json, "msg"@)), old.encryption, old.secret) is Some))
        &&& r matches Ok((_, b)) ==> (b matches Some(item) && item.0 == field_text(lookup(json, "from"@))
            && opened_text(field_text(lookup(json, "msg"@)), old.encryption, old.secret) == Some(item.1))
        &&& forall|t: Seq<char>| #[trigger] sealed_text(t, old.encryption, old.secret)
            == field_text(lookup(json, "msg"@)) && is_chat_message(json)
            ==> (r matches Ok((_, Some(item))) && item.1 == t)
    }
}

/// How sending the oldest queued message moves a client's record from `old` to
/// `new`, with the message sent and the interest to register.
pub open spec fn writable_step(
    old: ServerClientModel,
    new: ServerClientModel,
    r: Option<(Outgoing, Option<Interest>)>,
) -> bool {
    &&& old.queue.len() == 0 ==> r is None && new == old
    &&& old.queue.len() > 0 ==> (r matches Some((m, i)) && {
        let (next, interest) = server_after_send(old.state, old.queue.len() > 1);
        &&& m == old.queue[0]
        &&& i == interest
        &&& if old.state == ClientState::ParamReqSent {
            new == (ServerClientModel {
                state: next,
                private: new.private,
                queue: old.queue.drop_first().push(
                    Outgoing::PublicNumber("b"@, mod_pow(old.g as int, new.private as nat, old.p as int) as u32),
                ),
                ..old
            })
        } else {
            new == (ServerClientModel { state: next, queue: old.queue.drop_first(), ..old })
        }
    })
}

/// After sending a queued message the server registers what comes next. A
/// connected client is woken to write again exactly while messages still wait for
/// it, and to read once its queue is empty. Each handshake send registers an
/// interest: after the parameters both writing (its own public number now waits)
/// and reading; after its own public number, reading, since it waits for the client.
pub proof fn lemma_server_send_interest(
    old: ServerClientModel,
    new: ServerClientModel,
    r: Option<(Outgoing, Option<Interest>)>,
)
    requires
        writable_step(old, new, r),
        old.queue.len() > 0,
    ensures
        old.state == ClientState::Connected ==> {
            &&& new.state == ClientState::Connected
            &&& new.queue.len() == old.queue.len() - 1
            &&& r matches Some((_, Some(i)))
            &&& (new.queue.len() > 0 ==> i == Interest::Writable)
            &&& (new.queue.len() == 0 ==> i == Interest::Readable)
        },
        old.state == ClientState::ParamReqSent ==> {
            &&& new.queue.len() > 0
            &&& r matches Some((_, Some(i))) && includes_writing(i) && includes_reading(i)
        },
        old.state == ClientState::ParamsReceived || old.state == ClientState::ClientNumberSent ==> {
            &&& new.state != ClientState::Connected
            &&& r matches Some((_, Some(i))) && i == Interest::Readable
        },
{
}

/// A read that leaves the server something to send asks to write: after the
/// parameter request (the parameters now wait), and after the client's public
/// number when the server's own has not gone out yet (it stays queued). A read
/// after which the server only waits for the client asks to read.
pub proof fn lemma_server_read_interest(
    old: ServerClientModel,
    new: ServerClientModel,
    json: Seq<(Seq<char>, FieldView)>,
    params: Option<(u32, u32)>,
    r: Result<(Interest, Option<(Seq<char>, Seq<char>)>), Seq<char>>,
)
    requires
        readable_step(old, new, json, params, r),
        r is Ok,
    ensures
        old.state == ClientState::NotConnected ==> {
            &&& new.queue.len() > 0
            &&& r matches Ok((i, _)) && includes_writing(i)
        },
        old.state == ClientState::ParamsReceived ==> {
            &&& new.state == ClientState::ClientNumberSent
            &&& new.queue == old.queue
            &&& r matches Ok((i, _)) && includes_writing(i)
        },
        old.state == ClientState::ServerNumberSent || old.state == ClientState::NumbersExchanged
            || old.state == ClientState::Connected ==> (r matches Ok((i, _)) && i == Interest::Readable),
{
}

/// What `handle_writable` gives, as the contracts speak of it.
pub open spec fn write_result_view(r: &Option<(ServerMessage, Option<Interest>)>) -> Option<(Outgoing, Option<Interest>)> {
    match r {
        Some((m, i)) => Some((m@, *i)),
        None => None,
    }
}

/// The server's record of one connected client.
pub struct SocketClient {
    token: usize,
    state: ClientState,
    messages_to_send: VecDeque<ServerMessage>,
    p: u32,
    g: u32,
    private: u32,
    public: u32,
    secret: u32,
    encryption: EncryptionMethod,
}

impl View for SocketClient {
    type V = ServerClientModel;

    closed spec fn view(&self) -> ServerClientModel {
        ServerClientModel {
            token: self.token,
            state: self.state,
            queue: self.messages_to_send@.map_values(|m: ServerMessage| m@),
            p: self.p,
            g: self.g,
            private: self.private,
            public: self.public,
            secret: self.secret,
            encryption: self.encryption,
        }
    }
}

impl SocketClient {
    /// The record of a client that has just connected under `token`.
    pub fn new(token: usize) -> (c: SocketClient)
        ensures
            c@ == (ServerClientModel {
                token: token,
                state: ClientState::NotConnected,
                queue: Seq::empty(),
                p: 0,
                g: 0,
                private: 0,
                public: 0,
                secret: 0,
                encryption: EncryptionMethod::Plain,
            }),
    {
        let c = SocketClient {
            token: token,
            state: ClientState::NotConnected,
            messages_to_send: VecDeque::new(),
            p: 0,
            g: 0,
            private: 0,
            public: 0,
            secret: 0,
            encryption: EncryptionMethod::Plain,
        };
        assert(c@.queue =~= Seq::<Outgoing>::empty());
        c
    }

    /// The token of the client's connection.
    pub fn token(&self) -> (t: usize)
        ensures
            t == self@.token,
    {
        self.token
    }

    /// Whether `handle_writable` may be called.
    pub fn can_write(&self) -> (ok: bool)
        ensures
            ok == write_defined(self@),
    {
        self.messages_to_send.len() == 0 || (self.state != ClientState::ServerNumberSent && (self.state
            != ClientState::ParamReqSent || self.p > 0))
    }

    /// Whether the next read needs fresh parameters (a parameter request).
    pub fn needs_parameters(&self) -> (b: bool)
        ensures
            b == (self@.state == ClientState::NotConnected),
    {
        self.state == ClientState::NotConnected
    }

    /// Whether `handle_readable` may be called, with or without parameters.
    pub fn can_read(&self, has_params: bool) -> (ok: bool)
        ensures
            ok == read_defined(self@, has_params),
    {
        match self.state {
            ClientState::NotConnected => has_params,
            ClientState::ParamReqSent => false,
            ClientState::ClientNumberSent => false,
            ClientState::NumbersExchanged => self.p > 0,
            _ => true,
        }
    }

    /// Queues a broadcast chat message for this client, sealed with its cipher.
    pub fn push_normal_message_json(&mut self, item: &Broadcast)
        ensures
            final(self)@ == (ServerClientModel {
                queue: old(self)@.queue.push(
                    Outgoing::Normal(item.from@, sealed_text(item.msg@, old(self)@.encryption, old(self)@.secret)),
                ),
                ..old(self)@
            }),
    {
        let msg_encrypted = seal_text(&item.msg, &self.encryption, &self.secret);
        let ghost before = self@;
        self.messages_to_send.push_back(ServerMessage::Normal(NormalMessage::new(item.from.clone(), msg_encrypted)));
        assert(self@.queue =~= before.queue.push(
            Outgoing::Normal(item.from@, sealed_text(item.msg@, before.encryption, before.secret)),
        ));
    }

    /// Draws the server's private number and queues its public number under `"b"`.
    fn push_send_public_message(&mut self)
        requires
            old(self)@.p > 0,
        ensures
            final(self)@ == (ServerClientModel {
                private: final(self)@.private,
                queue: old(self)@.queue.push(
                    Outgoing::PublicNumber("b"@, mod_pow(old(self)@.g as int, final(self)@.private as nat, old(self)@.p as int) as u32),
                ),
                ..old(self)@
            }),
    {
        proof {
            reveal_strlit("b");
        }
        let ghost before = self@;
        self.private = generate_private_number();
        let server_public_number = generate_public_number(self.p, self.g, self.private);
        self.messages_to_send.push_back(ServerMessage::PublicNumber(SendPublicNumberMessage::new("b", server_public_number)));
        assert(self@.queue =~= before.queue.push(
            Outgoing::PublicNumber("b"@, mod_pow(before.g as int, self@.private as nat, before.p as int) as u32),
        ));
    }

    /// Chooses the cipher that a client names under `"encryption"`.
    fn handle_encryption(&mut self, json: &JsonObject)
        ensures
            final(self)@ == (ServerClientModel {
                encryption: chosen_encryption(field_text(lookup(json@, "encryption"@)), old(self)@.encryption),
                ..old(self)@
            }),
    {
        proof {
            reveal_strlit("encryption");
            reveal_strlit("xor");
            reveal_strlit("cezar");
        }
        let name = json.text("encryption");
        if name == "xor".to_owned() {
            self.encryption = EncryptionMethod::Xor;
        } else if name == "cezar".to_owned() {
            self.encryption = EncryptionMethod::Cezar;
        }
    }

    /// Opens a client's chat message with its cipher and secret, for broadcast.
    fn handle_msg(&self, json: &JsonObject) -> (b: Option<Broadcast>)
        ensures
            (match b {
                Some(item) => item.from@ == field_text(lookup(json@, "from"@))
                    && opened_text(field_text(lookup(json@, "msg"@)), self@.encryption, self@.secret) == Some(item.msg@),
                None => opened_text(field_text(lookup(json@, "msg"@)), self@.encryption, self@.secret) is None,
            }),
            forall|t: Seq<char>| #[trigger] sealed_text(t, self@.encryption, self@.secret)
                == field_text(lookup(json@, "msg"@)) ==> (b matches Some(item) && item.msg@ == t),
    {
        proof {
            reveal_strlit("from");
            reveal_strlit("msg");
        }
        let msg = json.text("msg");
        match open_text(&msg, &self.encryption, &self.secret) {
            Some(decrypted_msg) => Some(Broadcast { from: json.text("from"), msg: decrypted_msg }),
            None => None,
        }
    }

    /// Reads a parameter request; on a valid one, takes the parameters drawn for
    /// the client and queues them.
    fn read_param_req(&mut self, json: &JsonObject, p: u32, g: u32) -> (r: Result<(), String>)
        ensures
            r is Ok <==> is_param_request(json@),
            r is Ok ==> final(self)@ == (ServerClientModel {
                state: ClientState::ParamReqSent,
                p: p,
                g: g,
                queue: old(self)@.queue.push(Outgoing::Params(p, g)),
                ..old(self)@
            }),
            r is Err ==> final(self)@ == old(self)@,
            r matches Err(e) ==> e@ == "Could not read valid param request"@,
    {
        if validate_param_req(json) {
            let ghost before = self@;
            self.state = ClientState::ParamReqSent;
            self.p = p;
            self.g = g;
            self.messages_to_send.push_back(ServerMessage::Params(SendParamsMessage::new(p, g)));
            assert(self@.queue =~= before.queue.push(Outgoing::Params(p, g)));
            Ok(())
        } else {
            Err("Could not read valid param request".to_owned())
        }
    }

    /// Takes the client's public number from its `"a"` message.
    fn read_public(&mut self, json: &JsonObject) -> (r: Result<(), String>)
        ensures
            r is Ok <==> parsed_u32(field_text(lookup(json@, "a"@))) is Some,
            r is Ok ==> final(self)@ == (ServerClientModel {
                public: parsed_u32(field_text(lookup(json@, "a"@))).unwrap(),
                ..old(self)@
            }),
            r is Err ==> final(self)@ == old(self)@,
            r matches Err(e) ==> e@ == "could not read the client's public number"@,
    {
        proof {
            reveal_strlit("a");
        }
        let a_text = json.text("a");
        match parse_u32(a_text.as_str()) {
            Some(a) => {
                self.public = a;
                Ok(())
            },
            None => Err("could not read the client's public number".to_owned()),
        }
    }

    /// Reads what the client sends first once the numbers are exchanged: its
    /// cipher, or already a chat message.
    fn read_encryption_or_msg(&mut self, json: &JsonObject) -> (r: Result<Option<Broadcast>, String>)
        ensures
            r is Ok <==> (names_encryption(json@) || (is_chat_message(json@) && opened_text(
                field_text(lookup(json@, "msg"@)), old(self)@.encryption, old(self)@.secret) is Some)),
            names_encryption(json@) ==> (r matches Ok(None)) && final(self)@ == (ServerClientModel {
                encryption: chosen_encryption(field_text(lookup(json@, "encryption"@)), old(self)@.encryption),
                ..old(self)@
            }),
            !names_encryption(json@) ==> final(self)@ == old(self)@,
            !names_encryption(json@) && is_chat_message(json@) ==> (match r {
                Ok(Some(item)) => item.from@ == field_text(lookup(json@, "from"@))
                    && opened_text(field_text(lookup(json@, "msg"@)), old(self)@.encryption, old(self)@.secret) == Some(item.msg@),
                _ => r is Err,
            }),
            r matches Err(e) ==> e@ == (if is_chat_message(json@) { "Incorrect message"@ } else { "Incorrect encryption or message"@ }),
    {
        if is_valid_encryption_method(json) {
            self.handle_encryption(json);
            Ok(None)
        } else if is_valid_msg(json) {
            match self.handle_msg(json) {
                Some(item) => Ok(Some(item)),
                None => Err("Incorrect message".to_owned()),
            }
        } else {
            Err("Incorrect encryption or message".to_owned())
        }
    }

    /// Reads a chat message from the client.
    fn read_message(&self, json: &JsonObject) -> (r: Result<Broadcast, String>)
        ensures
            r is Ok <==> (is_chat_message(json@) && opened_text(
                field_text(lookup(json@, "msg"@)), self@.encryption, self@.secret) is Some),
            r matches Ok(item) ==> item.from@ == field_text(lookup(json@, "from"@))
                && opened_text(field_text(lookup(json@, "msg"@)), self@.encryption, self@.secret) == Some(item.msg@),
            forall|t: Seq<char>| #[trigger] sealed_text(t, self@.encryption, self@.secret)
                == field_text(lookup(json@, "msg"@)) && is_chat_message(json@) ==> (r matches Ok(item) && item.msg@ == t),
            r matches Err(e) ==> e@ == "Incorrect message"@,
    {
        if is_valid_msg(json) {
            match self.handle_msg(json) {
                Some(item) => Ok(item),
                None => Err("Incorrect message".to_owned()),
            }
        } else {
            Err("Incorrect message".to_owned())
        }
    }

    /// Reads from the client and moves the handshake on: a parameter request
    /// (answered with `params`), the client's public number, its cipher, or a chat
    /// message to broadcast. Once the numbers are exchanged the secret is found
    /// first. Gives the interest to register next; an error where what the client
    /// sent cannot be read.
    pub fn handle_readable(&mut self, json: &JsonObject, params: Option<(u32, u32)>) -> (r: Result<(Interest, Option<Broadcast>), String>)
        requires
            read_defined(old(self)@, params is Some),
        ensures
            readable_step(old(self)@, final(self)@, json@, params, read_result_view(&r)),
    {
        match self.state {
            ClientState::NotConnected => {
                let (p, g) = params.unwrap();
                match self.read_param_req(json, p, g) {
                    Ok(()) => Ok((Interest::Writable, None)),
                    Err(e) => Err(e),
                }
            },
            ClientState::ParamsReceived => {
                match self.read_public(json) {
                    Ok(()) => {
                        self.state = ClientState::ClientNumberSent;
                        Ok((Interest::Writable, None))
                    },
                    Err(e) => Err(e),
                }
            },
            ClientState::ServerNumberSent => {
                match self.read_public(json) {
                    Ok(()) => {
                        self.state = ClientState::NumbersExchanged;
                        Ok((Interest::Readable, None))
                    },
                    Err(e) => Err(e),
                }
            },
            ClientState::NumbersExchanged => {
                self.secret = find_secret(self.public, self.private, self.p);
                match self.read_encryption_or_msg(json) {
                    Ok(b) => {
                        self.state = ClientState::Connected;
                        Ok((Interest::Readable, b))
                    },
                    Err(e) => Err(e),
                }
            },
            _ => {
                match self.read_message(json) {
                    Ok(item) => Ok((Interest::Readable, Some(item))),
                    Err(e) => Err(e),
                }
            },
        }
    }

    /// Sends the oldest queued message, if the socket is writable and one waits,
    /// and moves the handshake on: the message to send and the interest to
    /// register next. After the parameters go out, the server's public number is queued.
    pub fn handle_writable(&mut self) -> (r: Option<(ServerMessage, Option<Interest>)>)
        requires
            write_defined(old(self)@),
        ensures
            writable_step(old(self)@, final(self)@, write_result_view(&r)),
    {
        if self.messages_to_send.len() == 0 {
            return None;
        }
        let ghost before = self@;
        let msg = self.messages_to_send.pop_front().unwrap();
        assert(self@.queue =~= before.queue.drop_first());
        let interest = match self.state {
            ClientState::ParamReqSent => {
                self.state = ClientState::ParamsReceived;
                self.push_send_public_message();
                Some(Interest::ReadableWritable)
            },
            ClientState::ParamsReceived => {
                self.state = ClientState::ServerNumberSent;
                Some(Interest::Readable)
            },
            ClientState::ClientNumberSent => {
                self.state = ClientState::NumbersExchanged;
                Some(Interest::Readable)
            },
            ClientState::Connected => {
                if self.messages_to_send.len() == 0 {
                    Some(Interest::Readable)
                } else {
                    Some(Interest::Writable)
                }
            },
            _ => None,
        };
        Some((msg, interest))
    }
}

/// What the server holds: the records of its clients by token, the chat messages
/// waiting to be broadcast (with their senders' tokens), and the next token to hand out.
pub struct ServerModel {
    pub clients: Map<usize, ServerClientModel>,
    pub broadcasts: Seq<(usize, Seq<char>, Seq<char>)>,
    pub token_counter: usize,
}

/// Tokens are handed out from 1 upward: every registered token is below the
/// counter, and the record under a token carries that token.
pub open spec fn tokens_fresh(m: ServerModel) -> bool {
    &&& m.token_counter >= 1
    &&& forall|t: usize| #[trigger] m.clients.dom().contains(t) ==> 1 <= t < m.token_counter && m.clients[t].token == t
}

/// A change that registers no token, keeps the token in each record it keeps, and
/// keeps the counter, keeps tokens fresh.
proof fn lemma_tokens_stay_fresh(before: ServerModel, after: ServerModel)
    requires
        tokens_fresh(before),
        after.token_counter == before.token_counter,
        forall|t: usize| #[trigger] after.clients.dom().contains(t) ==> before.clients.dom().contains(t)
            && after.clients[t].token == before.clients[t].token,
    ensures
        tokens_fresh(after),
{
}

/// The chat messages that a client receives from a run of broadcasts: each one
/// that another client sent, sealed with this client's cipher and secret.
pub open spec fn deliveries(c: ServerClientModel, bs: Seq<(usize, Seq<char>, Seq<char>)>) -> Seq<Outgoing>
    decreases bs.len(),
{
    if bs.len() == 0 {
        seq![]
    } else {
        let b = bs.last();
        let rest = deliveries(c, bs.drop_last());
        if b.0 != c.token {
            rest.push(Outgoing::Normal(b.1, sealed_text(b.2, c.encryption, c.secret)))
        } else {
            rest
        }
    }
}

/// How many times `t` occurs in `s`.
pub open spec fn count_of(s: Seq<usize>, t: usize) -> nat
    decreases s.len(),
{
    if s.len() == 0 {
        0
    } else {
        count_of(s.drop_last(), t) + if s.last() == t { 1nat } else { 0nat }
    }
}

/// How many wake-ups for writing a run of broadcasts asks for `t`: one for each
/// message that reaches the client registered under `t`.
pub open spec fn wakeup_count(clients: Map<usize, ServerClientModel>, bs: Seq<(usize, Seq<char>, Seq<char>)>, t: usize) -> nat {
    if clients.dom().contains(t) {
        deliveries(clients[t], bs).len()
    } else {
        0
    }
}

proof fn lemma_count_push(s: Seq<usize>, x: usize, t: usize)
    ensures
        count_of(s.push(x), t) == count_of(s, t) + if x == t { 1nat } else { 0nat },
{
    assert(s.push(x).drop_last() =~= s);
}

/// A client never receives its own chat messages, and receives every other
/// client's, in the order they were broadcast.
pub proof fn lemma_broadcast_skips_only_the_sender(c: ServerClientModel, bs: Seq<(usize, Seq<char>, Seq<char>)>)
    ensures
        (forall|k: int| 0 <= k < bs.len() ==> #[trigger] bs[k].0 == c.token) ==> deliveries(c, bs).len() == 0,
        (forall|k: int| 0 <= k < bs.len() ==> #[trigger] bs[k].0 != c.token) ==> deliveries(c, bs) == bs.map_values(
            |b: (usize, Seq<char>, Seq<char>)| Outgoing::Normal(b.1, sealed_text(b.2, c.encryption, c.secret)),
        ),
    decreases bs.len(),
{
    if bs.len() > 0 {
        let rest = bs.drop_last();
        assert forall|k: int| 0 <= k < rest.len() implies rest[k] == bs[k] by {}
        lemma_broadcast_skips_only_the_sender(c, rest);
        if forall|k: int| 0 <= k < bs.len() ==> #[trigger] bs[k].0 != c.token {
            assert(bs[bs.len() - 1].0 != c.token);
            assert(deliveries(c, bs) =~= bs.map_values(
                |b: (usize, Seq<char>, Seq<char>)| Outgoing::Normal(b.1, sealed_text(b.2, c.encryption, c.secret)),
            ));
        }
        if forall|k: int| 0 <= k < bs.len() ==> #[trigger] bs[k].0 == c.token {
            assert(bs[bs.len() - 1].0 == c.token);
        }
    }
}

/// The tokens registered in `m`, each once, in the order the map walks them.
fn keys_of(m: &HashMap<usize, SocketClient>) -> (ts: Vec<usize>)
    ensures
        ts@.to_set() == m@.dom(),
        ts@.no_duplicates(),
{
    let ghost all = vstd::std_specs::iter::IteratorSpec::remaining(&vstd::std_specs::hash::spec_keys_iter(m));
    let mut ts: Vec<usize> = Vec::new();
    for k in it: m.keys()
        invariant
            it.seq() == all,
            ts@ == all.take(it.index()).unref(),
    {
        ts.push(*k);
        assert(ts@ =~= all.take(it.index() + 1).unref());
    }
    assert(ts@ =~= all.unref());
    ts
}

/// The token of the server's listening socket.
pub const SERVER_TOKEN: usize = 0;

/// What the server does on readiness events for a token.
#[derive(Debug, PartialEq, Eq, Clone, Copy, Structural)]
pub enum ServerDispatch {
    /// The listening socket failed; the server has no way to go on.
    ListenerFailed,
    /// A connection waits to be accepted.
    AcceptConnection,
    /// Nothing to do.
    Ignore,
    /// A client's socket failed or hung up: forget the client.
    DropClient,
    /// A client's socket is ready: let its record handle the events.
    ClientEvent,
}

/// The dispatch of readiness events for `token`.
pub open spec fn dispatch(token: usize, events: Events) -> ServerDispatch {
    if token == SERVER_TOKEN {
        if events.hup || events.error {
            ServerDispatch::ListenerFailed
        } else if events.readable {
            ServerDispatch::AcceptConnection
        } else {
            ServerDispatch::Ignore
        }
    } else if events.hup || events.error {
        ServerDispatch::DropClient
    } else {
        ServerDispatch::ClientEvent
    }
}

/// Readiness events go by which socket failed. An error or a hang-up on a client's
/// socket drops that client, whatever else is reported; on the listener it stops
/// the server. A client's socket that did not fail goes to its record; a listener
/// that did not fail accepts a connection when readable and is otherwise left alone.
pub proof fn lemma_failed_sockets_are_dropped(token: usize, events: Events)
    ensures
        token != SERVER_TOKEN && (events.error || events.hup) ==> dispatch(token, events) == ServerDispatch::DropClient,
        token != SERVER_TOKEN && !(events.error || events.hup) ==> dispatch(token, events) == ServerDispatch::ClientEvent,
        token == SERVER_TOKEN && (events.error || events.hup) ==> dispatch(token, events) == ServerDispatch::ListenerFailed,
        token == SERVER_TOKEN && !(events.error || events.hup) ==> dispatch(token, events) == (if events.readable {
            ServerDispatch::AcceptConnection
        } else {
            ServerDispatch::Ignore
        }),
{
}

/// The chat server: its clients by token and the messages waiting to be broadcast.
pub struct SocketServer {
    clients: HashMap<usize, SocketClient>,
    messages_to_broadcast: VecDeque<(usize, Broadcast)>,
    token_counter: usize,
}

impl View for SocketServer {
    type V = ServerModel;

    closed spec fn view(&self) -> ServerModel {
        ServerModel {
            clients: self.clients@.map_values(|c: SocketClient| c@),
            broadcasts: self.messages_to_broadcast@.map_values(|b: (usize, Broadcast)| (b.0, b.1.from@, b.1.msg@)),
            token_counter: self.token_counter,
        }
    }
}

impl SocketServer {
    /// A server with no clients; the first client gets token 1.
    pub fn new() -> (s: SocketServer)
        ensures
            s@ == (ServerModel { clients: Map::empty(), broadcasts: Seq::empty(), token_counter: 1 }),
            tokens_fresh(s@),
    {
        let s = SocketServer { clients: HashMap::new(), messages_to_broadcast: VecDeque::new(), token_counter: 1 };
        assert(s@.clients =~= Map::<usize, ServerClientModel>::empty());
        assert(s@.broadcasts =~= Seq::<(usize, Seq<char>, Seq<char>)>::empty());
        s
    }

    /// Registers a newly accepted connection under a fresh token, which it returns.
    pub fn handle_new_connection(&mut self) -> (token: usize)
        requires
            old(self)@.token_counter < usize::MAX,
        ensures
            token == old(self)@.token_counter,
            tokens_fresh(old(self)@) ==> !old(self)@.clients.dom().contains(token),
            final(self)@ == (ServerModel {
                clients: old(self)@.clients.insert(token, ServerClientModel {
                    token: token,
                    state: ClientState::NotConnected,
                    queue: Seq::empty(),
                    p: 0,
                    g: 0,
                    private: 0,
                    public: 0,
                    secret: 0,
                    encryption: EncryptionMethod::Plain,
                }),
                broadcasts: old(self)@.broadcasts,
                token_counter: (old(self)@.token_counter + 1) as usize,
            }),
            tokens_fresh(old(self)@) ==> tokens_fresh(final(self)@),
    {
        let new_token = self.token_counter;
        self.token_counter += 1;
        let ghost before = old(self)@;
        let client = SocketClient::new(new_token);
        let ghost model = client@;
        let _ = self.clients.insert(new_token, client);
        assert(self@.clients =~= before.clients.insert(new_token, model));
        new_token
    }

    /// Whether a client with `token` is connected.
    pub fn has_client(&self, token: usize) -> (b: bool)
        ensures
            b == self@.clients.dom().contains(token),
    {
        self.clients.contains_key(&token)
    }

    /// Whether `client_writable` may be called for `token`.
    pub fn can_write(&self, token: usize) -> (ok: bool)
        ensures
            ok == (self@.clients.dom().contains(token) && write_defined(self@.clients[token])),
    {
        match self.clients.get(&token) {
            Some(c) => c.can_write(),
            None => false,
        }
    }

    /// Whether the next read from `token` needs freshly drawn parameters.
    pub fn needs_parameters(&self, token: usize) -> (b: bool)
        ensures
            b == (self@.clients.dom().contains(token) && self@.clients[token].state == ClientState::NotConnected),
    {
        match self.clients.get(&token) {
            Some(c) => c.needs_parameters(),
            None => false,
        }
    }

    /// Whether `client_readable` may be called for `token`, with or without parameters.
    pub fn can_read(&self, token: usize, has_params: bool) -> (ok: bool)
        ensures
            ok == (self@.clients.dom().contains(token) && read_defined(self@.clients[token], has_params)),
    {
        match self.clients.get(&token) {
            Some(c) => c.can_read(has_params),
            None => false,
        }
    }

    /// The client with `token` is writable: its oldest queued message to send and
    /// the interest to register next, if a message waits.
    pub fn client_writable(&mut self, token: usize) -> (r: Option<(ServerMessage, Option<Interest>)>)
        requires
            old(self)@.clients.dom().contains(token),
            write_defined(old(self)@.clients[token]),
        ensures
            writable_step(old(self)@.clients[token], final(self)@.clients[token], write_result_view(&r)),
            final(self)@.clients == old(self)@.clients.insert(token, final(self)@.clients[token]),
            final(self)@.broadcasts == old(self)@.broadcasts,
            final(self)@.token_counter == old(self)@.token_counter,
            tokens_fresh(old(self)@) ==> tokens_fresh(final(self)@),
    {
        let ghost before = self@;
        let mut client = self.clients.remove(&token).unwrap();
        let r = client.handle_writable();
        let ghost model = client@;
        let _ = self.clients.insert(token, client);
        assert(self@.clients =~= before.clients.insert(token, model));
        proof {
            if tokens_fresh(before) {
                lemma_tokens_stay_fresh(before, self@);
            }
        }
        r
    }

    /// The client with `token` is readable and `json` is what it sent: moves its
    /// handshake on, answers a parameter request with `params`, and queues a chat
    /// message for broadcast. Gives the interest to register next and whether a
    /// message was queued (the caller then wakes the server to broadcast it).
    pub fn client_readable(&mut self, token: usize, json: &JsonObject, params: Option<(u32, u32)>) -> (r: Result<(Interest, bool), String>)
        requires
            old(self)@.clients.dom().contains(token),
            read_defined(old(self)@.clients[token], params is Some),
        ensures
            ({
                let queued = final(self)@.broadcasts.len() > old(self)@.broadcasts.len();
                let item = final(self)@.broadcasts.last();
                let outcome = match r {
                    Ok((interest, q)) => Ok((interest, if q { Some((item.1, item.2)) } else { None })),
                    Err(e) => Err(e@),
                };
                &&& readable_step(old(self)@.clients[token], final(self)@.clients[token], json@, params, outcome)
                &&& final(self)@.clients == old(self)@.clients.insert(token, final(self)@.clients[token])
                &&& final(self)@.token_counter == old(self)@.token_counter
                &&& (r matches Ok((_, true)) ==> final(self)@.broadcasts == old(self)@.broadcasts.push((token, item.1, item.2)))
                &&& (!(r matches Ok((_, true))) ==> final(self)@.broadcasts == old(self)@.broadcasts)
            }),
            tokens_fresh(old(self)@) ==> tokens_fresh(final(self)@),
    {
        let ghost before = self@;
        let mut client = self.clients.remove(&token).unwrap();
        let r = client.handle_readable(json, params);
        let ghost model = client@;
        let _ = self.clients.insert(token, client);
        assert(self@.clients =~= before.clients.insert(token, model));
        proof {
            if tokens_fresh(before) {
                lemma_tokens_stay_fresh(before, self@);
            }
        }
        match r {
            Ok((interest, Some(item))) => {
                let ghost item_view = (token, item.from@, item.msg@);
                self.messages_to_broadcast.push_back((token, item));
                assert(self@.broadcasts =~= before.broadcasts.push(item_view));
                Ok((interest, true))
            },
            Ok((interest, None)) => Ok((interest, false)),
            Err(e) => Err(e),
        }
    }

    /// Broadcasts every waiting chat message, oldest first: each one goes to every
    /// client but its sender, sealed with that client's cipher and secret. Gives the
    /// tokens to wake for writing, one per delivered message; the clients are
    /// walked in the map's order, which nothing fixes.
    pub fn notify_broadcast(&mut self) -> (woken: Vec<usize>)
        ensures
            final(self)@.broadcasts.len() == 0,
            final(self)@.token_counter == old(self)@.token_counter,
            final(self)@.clients.dom() == old(self)@.clients.dom(),
            forall|t: usize| #[trigger] old(self)@.clients.dom().contains(t) ==> final(self)@.clients[t] == (ServerClientModel {
                queue: old(self)@.clients[t].queue + deliveries(old(self)@.clients[t], old(self)@.broadcasts),
                ..old(self)@.clients[t]
            }),
            forall|t: usize| #[trigger] count_of(woken@, t) == wakeup_count(old(self)@.clients, old(self)@.broadcasts, t),
            tokens_fresh(old(self)@) ==> tokens_fresh(final(self)@),
    {
        let ghost start = self@;
        let mut woken: Vec<usize> = Vec::new();
        let ghost mut done: Seq<(usize, Seq<char>, Seq<char>)> = seq![];
        assert forall|t: usize| #[trigger] start.clients.dom().contains(t) implies self@.clients[t] == (ServerClientModel {
            queue: start.clients[t].queue + deliveries(start.clients[t], done),
            ..start.clients[t]
        }) by {
            assert(start.clients[t].queue + deliveries(start.clients[t], done) =~= start.clients[t].queue);
        }
        while self.messages_to_broadcast.len() > 0
            invariant
                start == old(self)@,
                start.broadcasts == done + self@.broadcasts,
                self@.token_counter == start.token_counter,
                self@.clients.dom() == start.clients.dom(),
                forall|t: usize| #[trigger] start.clients.dom().contains(t) ==> self@.clients[t] == (ServerClientModel {
                    queue: start.clients[t].queue + deliveries(start.clients[t], done),
                    ..start.clients[t]
                }),
                forall|t: usize| #[trigger] count_of(woken@, t) == wakeup_count(start.clients, done, t),
            decreases self@.broadcasts.len(),
        {
            let ghost before_pop = self@;
            let (sender, item) = self.messages_to_broadcast.pop_front().unwrap();
            let ghost b = (sender, item.from@, item.msg@);
            assert(before_pop.broadcasts[0] == b);
            assert(self@.broadcasts =~= before_pop.broadcasts.drop_first());
            let ghost next_done = done.push(b);
            assert(next_done.drop_last() =~= done);
            let tokens = keys_of(&self.clients);
            assert(tokens@.to_set() == self@.clients.dom());
            let ghost woken_before = woken@;
            let mut j: usize = 0;
            while j < tokens.len()
                invariant
                    j <= tokens@.len(),
                    tokens@.no_duplicates(),
                    tokens@.to_set() == start.clients.dom(),
                    self@.clients.dom() == start.clients.dom(),
                    self@.token_counter == start.token_counter,
                    self@.broadcasts == before_pop.broadcasts.drop_first(),
                    b == (sender, item.from@, item.msg@),
                    next_done == done.push(b),
                    next_done.drop_last() == done,
                    forall|t: usize| #[trigger] start.clients.dom().contains(t) ==> self@.clients[t] == (ServerClientModel {
                        queue: start.clients[t].queue + deliveries(start.clients[t], if tokens@.take(j as int).contains(t) { next_done } else { done }),
                        ..start.clients[t]
                    }),
                    forall|t: usize| #[trigger] count_of(woken@, t) == count_of(woken_before, t) + if tokens@.take(j as int).contains(t)
                        && start.clients[t].token != sender { 1nat } else { 0nat },
                decreases tokens@.len() - j,
            {
                let t = tokens[j];
                let ghost before = self@;
                let ghost old_woken = woken@;
                assert(tokens@.to_set().contains(t));
                assert(tokens@.take(j + 1) =~= tokens@.take(j as int).push(t));
                assert(!tokens@.take(j as int).contains(t)) by {
                    if tokens@.take(j as int).contains(t) {
                        let k = choose|k: int| 0 <= k < j && tokens@.take(j as int)[k] == t;
                        assert(tokens@[k] == tokens@[j as int]);
                    }
                }
                let ghost c = start.clients[t];
                let mut client = self.clients.remove(&t).unwrap();
                assert(client@ == before.clients[t]);
                if client.token() != sender {
                    client.push_normal_message_json(&item);
                    woken.push(t);
                }
                let ghost model = client@;
                let _ = self.clients.insert(t, client);
                assert(self@.clients =~= before.clients.insert(t, model));
                proof {
                    assert(deliveries(c, next_done) == (if sender != c.token {
                        deliveries(c, done).push(Outgoing::Normal(b.1, sealed_text(b.2, c.encryption, c.secret)))
                    } else {
                        deliveries(c, done)
                    }));
                    assert(model.queue =~= start.clients[t].queue + deliveries(c, next_done));
                    assert forall|x: usize| #[trigger] start.clients.dom().contains(x) implies self@.clients[x] == (ServerClientModel {
                        queue: start.clients[x].queue + deliveries(start.clients[x], if tokens@.take(j + 1).contains(x) { next_done } else { done }),
                        ..start.clients[x]
                    }) by {
                        if x != t {
                            assert(tokens@.take(j + 1).contains(x) == tokens@.take(j as int).contains(x));
                        } else {
                            assert(tokens@.take(j + 1)[j as int] == x);
                        }
                    }
                    assert forall|x: usize| #[trigger] count_of(woken@, x) == count_of(woken_before, x) + if tokens@.take(j + 1).contains(x)
                        && start.clients[x].token != sender { 1nat } else { 0nat } by {
                        if c.token != sender {
                            lemma_count_push(old_woken, t, x);
                        }
                        if x != t {
                            assert(tokens@.take(j + 1).contains(x) == tokens@.take(j as int).contains(x));
                        } else {
                            assert(tokens@.take(j + 1)[j as int] == x);
                        }
                    }
                }
                j += 1;
            }
            proof {
                assert(tokens@.take(tokens@.len() as int) =~= tokens@);
                assert forall|x: usize| #[trigger] tokens@.contains(x) == start.clients.dom().contains(x) by {
                    assert(tokens@.to_set().contains(x) == tokens@.contains(x));
                }
                assert forall|x: usize| #[trigger] count_of(woken@, x) == wakeup_count(start.clients, next_done, x) by {
                    if start.clients.dom().contains(x) {
                        let c = start.clients[x];
                        assert(deliveries(c, next_done).len() == deliveries(c, done).len() + if sender != c.token { 1nat } else { 0nat });
                    }
                }
                assert(start.broadcasts =~= next_done + self@.broadcasts);
                done = next_done;
            }
        }
        assert(done =~= start.broadcasts);
        proof {
            if tokens_fresh(start) {
                lemma_tokens_stay_fresh(start, self@);
            }
        }
        woken
    }

    /// Decides what readiness events for `token` call for.
    pub fn ready(token: usize, events: Events) -> (d: ServerDispatch)
        ensures
            d == dispatch(token, events),
    {
        if token == SERVER_TOKEN {
            if events.hup || events.error {
                ServerDispatch::ListenerFailed
            } else if events.readable {
                ServerDispatch::AcceptConnection
            } else {
                ServerDispatch::Ignore
            }
        } else if events.hup || events.error {
            ServerDispatch::DropClient
        } else {
            ServerDispatch::ClientEvent
        }
    }

    /// The token that the next connection gets.
    pub fn token_counter(&self) -> (n: usize)
        ensures
            n == self@.token_counter,
    {
        self.token_counter
    }

    /// Forgets the client with `token` after an error or a hang-up on its socket;
    /// says whether there was one.
    pub fn handle_client_err(&mut self, token: usize) -> (found: bool)
        ensures
            found == old(self)@.clients.dom().contains(token),
            final(self)@ == (ServerModel { clients: old(self)@.clients.remove(token), ..old(self)@ }),
            tokens_fresh(old(self)@) ==> tokens_fresh(final(self)@),
    {
        let ghost before = self@;
        let removed = self.clients.remove(&token);
        assert(self@.clients =~= before.clients.remove(token));
        proof {
            if tokens_fresh(before) {
                lemma_tokens_stay_fresh(before, self@);
            }
        }
        removed.is_some()
    }
}

} // verus!
