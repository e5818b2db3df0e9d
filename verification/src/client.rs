//! The client's side of a connection: its handshake with the server and its
//! outgoing and incoming chat messages. The socket and the event loop stay with
//! the caller, which performs the action that each reaction names.

use vstd::prelude::*;
use std::collections::VecDeque;
use crate::cipher::EncryptionMethod;
use crate::key_exchange::{mod_pow, generate_private_number, generate_public_number, find_secret};
use crate::messages::{
    SendParamReqMessage, SendPublicNumberMessage, SendEncryptionMethodMessage, NormalMessage,
    sealed_text, seal_text, opened_text, open_text, JsonObject, field_text, lookup, parsed_u32,
    parse_u32,
};
use crate::protocol::{ClientState, Events, Interest, stage_rank, includes_writing};

verus! {

/// What the client does on an event, without its payload.
#[derive(Debug, PartialEq, Eq, Clone, Copy, Structural)]
pub enum ClientActionKind {
    Shutdown,
    Idle,
    SendParamRequest,
    ReadParams,
    SendPublicNumber,
    ReadServerPublic,
    SendEncryptionMethod,
    SendMessage,
    ReadMessage,
}

/// What the client does on an event: a message to send, a message to read from the
/// socket (then handed to the matching `read_*` method), or nothing.
#[derive(Debug)]
pub enum ClientAction {
    Shutdown,
    Idle,
    SendParamRequest(SendParamReqMessage),
    ReadParams,
    SendPublicNumber(SendPublicNumberMessage),
    ReadServerPublic,
    SendEncryptionMethod(SendEncryptionMethodMessage),
    SendMessage(NormalMessage),
    ReadMessage,
}

/// The kind of an action.
pub open spec fn action_kind(a: ClientAction) -> ClientActionKind {
    match a {
        ClientAction::Shutdown => ClientActionKind::Shutdown,
        ClientAction::Idle => ClientActionKind::Idle,
        ClientAction::SendParamRequest(_) => ClientActionKind::SendParamRequest,
        ClientAction::ReadParams => ClientActionKind::ReadParams,
        ClientAction::SendPublicNumber(_) => ClientActionKind::SendPublicNumber,
        ClientAction::ReadServerPublic => ClientActionKind::ReadServerPublic,
        ClientAction::SendEncryptionMethod(_) => ClientActionKind::SendEncryptionMethod,
        ClientAction::SendMessage(_) => ClientActionKind::SendMessage,
        ClientAction::ReadMessage => ClientActionKind::ReadMessage,
    }
}

/// The client's reaction to an event: the action, and the interest to register
/// for its socket afterwards, if any.
#[derive(Debug)]
pub struct ClientReaction {
    pub action: ClientAction,
    pub interest: Option<Interest>,
}

/// The client's transition on an event: its next stage, what it does, and the
/// interest it registers, given whether it encrypts and whether messages wait.
pub open spec fn client_transition(
    state: ClientState,
    ev: Events,
    encrypted: bool,
    has_pending: bool,
) -> (ClientState, ClientActionKind, Option<Interest>) {
    let idle = (state, ClientActionKind::Idle, None::<Interest>);
    if ev.error || ev.hup {
        (state, ClientActionKind::Shutdown, None)
    } else {
        match state {
            ClientState::NotConnected => (
                ClientState::ParamReqSent,
                ClientActionKind::SendParamRequest,
                Some(Interest::Readable),
            ),
            ClientState::ParamReqSent => if ev.readable {
                (ClientState::ParamsReceived, ClientActionKind::ReadParams, Some(Interest::ReadableWritable))
            } else {
                idle
            },
            ClientState::ParamsReceived => if ev.writable {
                (ClientState::ClientNumberSent, ClientActionKind::SendPublicNumber, Some(Interest::Readable))
            } else if ev.readable {
                (ClientState::ServerNumberSent, ClientActionKind::ReadServerPublic, Some(Interest::Writable))
            } else {
                idle
            },
            ClientState::ClientNumberSent => if ev.readable {
                if encrypted {
                    (ClientState::NumbersExchanged, ClientActionKind::ReadServerPublic, Some(Interest::Writable))
                } else {
                    (ClientState::Connected, ClientActionKind::ReadServerPublic, Some(Interest::Readable))
                }
            } else {
                idle
            },
            ClientState::ServerNumberSent => if ev.writable {
                if encrypted {
                    (ClientState::NumbersExchanged, ClientActionKind::SendPublicNumber, Some(Interest::Writable))
                } else {
                    (ClientState::Connected, ClientActionKind::SendPublicNumber, Some(Interest::Readable))
                }
            } else {
                idle
            },
            ClientState::NumbersExchanged => if ev.writable {
                (ClientState::Connected, ClientActionKind::SendEncryptionMethod, Some(Interest::Readable))
            } else {
                idle
            },
            ClientState::Connected => if ev.writable && has_pending {
                (ClientState::Connected, ClientActionKind::SendMessage, Some(Interest::Readable))
            } else if ev.readable {
                (ClientState::Connected, ClientActionKind::ReadMessage, Some(Interest::Readable))
            } else {
                idle
            },
        }
    }
}

/// The client's handshake never goes back: on any event its next stage is at
/// least as far along, and once connected it stays connected.
pub proof fn lemma_client_never_goes_back(state: ClientState, ev: Events, encrypted: bool, has_pending: bool)
    ensures
        stage_rank(client_transition(state, ev, encrypted, has_pending).0) >= stage_rank(state),
        state == ClientState::Connected ==> client_transition(state, ev, encrypted, has_pending).0
            == ClientState::Connected,
{
}

/// A client that does not encrypt never enters the stage in which it sends its
/// cipher, and never sends one: it goes from the number exchange straight to
/// chatting.
pub proof fn lemma_plain_client_sends_no_cipher(state: ClientState, ev: Events, has_pending: bool)
    requires
        state != ClientState::NumbersExchanged,
    ensures
        client_transition(state, ev, false, has_pending).0 != ClientState::NumbersExchanged,
        client_transition(state, ev, false, has_pending).1 != ClientActionKind::SendEncryptionMethod,
{
}

/// A client that encrypts sends its cipher before it chats. Whichever order the
/// public numbers go in (the client's first, or the server's first), the exchange
/// ends in the stage that sends the cipher, asking to write so that it goes out;
/// and such a client becomes connected only from that stage, by sending its cipher
/// (the step in which `ready` finds the secret).
pub proof fn lemma_encrypting_client_sends_cipher_first(state: ClientState, ev: Events, has_pending: bool)
    ensures
        ({
            let (next, kind, interest) = client_transition(state, ev, true, has_pending);
            &&& (!(ev.error || ev.hup) && state == ClientState::ServerNumberSent && ev.writable) ==> {
                &&& next == ClientState::NumbersExchanged
                &&& kind == ClientActionKind::SendPublicNumber
                &&& interest matches Some(i) && includes_writing(i)
            }
            &&& (!(ev.error || ev.hup) && state == ClientState::ClientNumberSent && ev.readable) ==> {
                &&& next == ClientState::NumbersExchanged
                &&& kind == ClientActionKind::ReadServerPublic
                &&& interest matches Some(i) && includes_writing(i)
            }
            &&& (next == ClientState::Connected && state != ClientState::Connected) ==> {
                &&& state == ClientState::NumbersExchanged
                &&& kind == ClientActionKind::SendEncryptionMethod
            }
        }),
{
}

/// Messages go out only once connected, and every message the user typed waits
/// until then: before the handshake ends no event sends one.
pub proof fn lemma_messages_wait_for_connection(state: ClientState, ev: Events, encrypted: bool, has_pending: bool)
    requires
        state != ClientState::Connected,
    ensures
        client_transition(state, ev, encrypted, has_pending).1 != ClientActionKind::SendMessage,
        client_transition(state, ev, encrypted, has_pending).1 != ClientActionKind::ReadMessage,
{
}

/// The transitions that compute modulo `p`: making a public number and finding the secret.
pub open spec fn uses_modulus(state: ClientState, ev: Events) -> bool {
    !(ev.error || ev.hup) && ev.writable && (state == ClientState::ParamsReceived
        || state == ClientState::ServerNumberSent || state == ClientState::NumbersExchanged)
}

/// What the client knows and holds.
pub struct ClientModel {
    pub name: Seq<char>,
    pub state: ClientState,
    pub queue: Seq<Seq<char>>,
    pub p: u32,
    pub g: u32,
    pub private: u32,
    pub public: u32,
    pub secret: u32,
    pub encryption: EncryptionMethod,
}

/// The client's side of its connection to the server.
pub struct ClientSocket {
    name: String,
    state: ClientState,
    messages_to_send: VecDeque<String>,
    p: u32,
    g: u32,
    private: u32,
    public: u32,
    secret: u32,
    encryption: EncryptionMethod,
}

impl View for ClientSocket {
    type V = ClientModel;

    closed spec fn view(&self) -> ClientModel {
        ClientModel {
            name: self.name@,
            state: self.state,
            queue: self.messages_to_send@.map_values(|s: String| s@),
            p: self.p,
            g: self.g,
            private: self.private,
            public: self.public,
            secret: self.secret,
            encryption: self.encryption,
        }
    }
}

impl ClientSocket {
    /// A client named `name` that has not yet connected.
    pub fn new(name: String, encryption: EncryptionMethod) -> (c: ClientSocket)
        ensures
            c@ == (ClientModel {
                name: name@,
                state: ClientState::NotConnected,
                queue: Seq::empty(),
                p: 0,
                g: 0,
                private: 0,
                public: 0,
                secret: 0,
                encryption: encryption,
            }),
    {
        let c = ClientSocket {
            name: name,
            state: ClientState::NotConnected,
            messages_to_send: VecDeque::new(),
            p: 0,
            g: 0,
            private: 0,
            public: 0,
            secret: 0,
            encryption: encryption,
        };
        assert(c@.queue =~= Seq::<Seq<char>>::empty());
        c
    }

    /// Whether `ready` may be called on these events: where the reaction computes
    /// modulo `p`, `p` must not be 0.
    pub fn can_react(&self, events: Events) -> (ok: bool)
        ensures
            ok == (uses_modulus(self@.state, events) ==> self@.p > 0),
    {
        let uses = !(events.error || events.hup) && events.writable && (self.state
            == ClientState::ParamsReceived || self.state == ClientState::ServerNumberSent
            || self.state == ClientState::NumbersExchanged);
        !uses || self.p > 0
    }

    /// Reacts to readiness events on the socket: moves the handshake on and says what
    /// to send or read. A public number is made here from a fresh private number, the
    /// secret is found here, and a waiting message is encrypted here.
    pub fn ready(&mut self, events: Events) -> (reaction: ClientReaction)
        requires
            uses_modulus(old(self)@.state, events) ==> old(self)@.p > 0,
        ensures
            (final(self)@.state, action_kind(reaction.action), reaction.interest) == client_transition(
                old(self)@.state,
                events,
                old(self)@.encryption != EncryptionMethod::Plain,
                old(self)@.queue.len() > 0,
            ),
            final(self)@.name == old(self)@.name,
            final(self)@.encryption == old(self)@.encryption,
            final(self)@.p == old(self)@.p,
            final(self)@.g == old(self)@.g,
            final(self)@.public == old(self)@.public,
            action_kind(reaction.action) != ClientActionKind::SendPublicNumber
                ==> final(self)@.private == old(self)@.private,
            action_kind(reaction.action) != ClientActionKind::SendEncryptionMethod
                ==> final(self)@.secret == old(self)@.secret,
            action_kind(reaction.action) != ClientActionKind::SendMessage
                ==> final(self)@.queue == old(self)@.queue,
            reaction.action matches ClientAction::SendPublicNumber(m) ==> {
                &&& m.key@ == "a"@
                &&& m.val == mod_pow(old(self)@.g as int, final(self)@.private as nat, old(self)@.p as int)
            },
            reaction.action matches ClientAction::SendEncryptionMethod(m) ==> {
                &&& m.method == old(self)@.encryption
                &&& final(self)@.secret == mod_pow(
                    old(self)@.public as int,
                    old(self)@.private as nat,
                    old(self)@.p as int,
                )
            },
            reaction.action matches ClientAction::SendMessage(m) ==> {
                &&& m.sender@ == old(self)@.name
                &&& m.content@ == sealed_text(old(self)@.queue[0], old(self)@.encryption, old(self)@.secret)
                &&& final(self)@.queue == old(self)@.queue.drop_first()
            },
    {
        proof {
            reveal_strlit("a");
        }
        if events.error || events.hup {
            return ClientReaction { action: ClientAction::Shutdown, interest: None };
        }
        let encrypted = self.encryption != EncryptionMethod::Plain;
        let idle = ClientReaction { action: ClientAction::Idle, interest: None };
        match self.state {
            ClientState::NotConnected => {
                self.state = ClientState::ParamReqSent;
                ClientReaction {
                    action: ClientAction::SendParamRequest(SendParamReqMessage),
                    interest: Some(Interest::Readable),
                }
            },
            ClientState::ParamReqSent => {
                if events.readable {
                    self.state = ClientState::ParamsReceived;
                    ClientReaction { action: ClientAction::ReadParams, interest: Some(Interest::ReadableWritable) }
                } else {
                    idle
                }
            },
            ClientState::ParamsReceived => {
                if events.writable {
                    let m = self.send_public_number();
                    self.state = ClientState::ClientNumberSent;
                    ClientReaction { action: ClientAction::SendPublicNumber(m), interest: Some(Interest::Readable) }
                } else if events.readable {
                    self.state = ClientState::ServerNumberSent;
                    ClientReaction { action: ClientAction::ReadServerPublic, interest: Some(Interest::Writable) }
                } else {
                    idle
                }
            },
            ClientState::ClientNumberSent => {
                if events.readable {
                    if encrypted {
                        self.state = ClientState::NumbersExchanged;
                        ClientReaction { action: ClientAction::ReadServerPublic, interest: Some(Interest::Writable) }
                    } else {
                        self.state = ClientState::Connected;
                        ClientReaction { action: ClientAction::ReadServerPublic, interest: Some(Interest::Readable) }
                    }
                } else {
                    idle
                }
            },
            ClientState::ServerNumberSent => {
                if events.writable {
                    let m = self.send_public_number();
                    if encrypted {
                        self.state = ClientState::NumbersExchanged;
                        ClientReaction { action: ClientAction::SendPublicNumber(m), interest: Some(Interest::Writable) }
                    } else {
                        self.state = ClientState::Connected;
                        ClientReaction { action: ClientAction::SendPublicNumber(m), interest: Some(Interest::Readable) }
                    }
                } else {
                    idle
                }
            },
            ClientState::NumbersExchanged => {
                if events.writable {
                    self.secret = find_secret(self.public, self.private, self.p);
                    self.state = ClientState::Connected;
                    ClientReaction {
                        action: ClientAction::SendEncryptionMethod(SendEncryptionMethodMessage::new(self.encryption)),
                        interest: Some(Interest::Readable),
                    }
                } else {
                    idle
                }
            },
            ClientState::Connected => {
                if events.writable && self.messages_to_send.len() > 0 {
                    let m = self.send_msg();
                    ClientReaction { action: ClientAction::SendMessage(m), interest: Some(Interest::Readable) }
                } else if events.readable {
                    ClientReaction { action: ClientAction::ReadMessage, interest: Some(Interest::Readable) }
                } else {
                    idle
                }
            },
        }
    }

    /// Queues a line typed by the user, where there is one.
    pub fn notify(&mut self, msg: Option<String>)
        ensures
            final(self)@.queue == (match msg {
                Some(m) => old(self)@.queue.push(m@),
                None => old(self)@.queue,
            }),
            final(self)@.state == old(self)@.state,
            final(self)@.name == old(self)@.name,
            final(self)@.p == old(self)@.p,
            final(self)@.g == old(self)@.g,
            final(self)@.private == old(self)@.private,
            final(self)@.public == old(self)@.public,
            final(self)@.secret == old(self)@.secret,
            final(self)@.encryption == old(self)@.encryption,
    {
        match msg {
            Some(m) => {
                self.messages_to_send.push_back(m);
                assert(self@.queue =~= old(self)@.queue.push(m@));
            },
            None => {},
        }
    }

    /// Takes `p` and `g` from the server's parameters message; an error where
    /// either is not a `u32` in decimal.
    pub fn read_params(&mut self, json: &JsonObject) -> (r: Result<(), String>)
        ensures
            r is Ok <==> (parsed_u32(field_text(lookup(json@, "p"@))) is Some
                && parsed_u32(field_text(lookup(json@, "g"@))) is Some),
            r is Ok ==> final(self)@ == (ClientModel {
                p: parsed_u32(field_text(lookup(json@, "p"@))).unwrap(),
                g: parsed_u32(field_text(lookup(json@, "g"@))).unwrap(),
                ..old(self)@
            }),
            r is Err ==> final(self)@ == old(self)@,
    {
        proof {
            reveal_strlit("p");
            reveal_strlit("g");
        }
        let p_text = json.text("p");
        let g_text = json.text("g");
        match (parse_u32(p_text.as_str()), parse_u32(g_text.as_str())) {
            (Some(p), Some(g)) => {
                self.p = p;
                self.g = g;
                Ok(())
            },
            _ => Err("could not read the parameters".to_owned()),
        }
    }

    /// Takes the server's public number from its `"b"` message; an error where it
    /// is not a `u32` in decimal.
    pub fn read_server_public(&mut self, json: &JsonObject) -> (r: Result<(), String>)
        ensures
            r is Ok <==> parsed_u32(field_text(lookup(json@, "b"@))) is Some,
            r is Ok ==> final(self)@ == (ClientModel {
                public: parsed_u32(field_text(lookup(json@, "b"@))).unwrap(),
                ..old(self)@
            }),
            r is Err ==> final(self)@ == old(self)@,
    {
        proof {
            reveal_strlit("b");
        }
        let b_text = json.text("b");
        match parse_u32(b_text.as_str()) {
            Some(b) => {
                self.public = b;
                Ok(())
            },
            None => Err("could not read the server's public number".to_owned()),
        }
    }

    /// Reads a chat message from the server: its sender and its text, opened with
    /// the client's cipher and secret; `None` where the text does not open.
    pub fn read_message(&self, json: &JsonObject) -> (r: Option<(String, String)>)
        ensures
            (match r {
                Some((from, msg)) => from@ == field_text(lookup(json@, "from"@))
                    && opened_text(field_text(lookup(json@, "msg"@)), self@.encryption, self@.secret) == Some(msg@),
                None => opened_text(field_text(lookup(json@, "msg"@)), self@.encryption, self@.secret) is None,
            }),
            forall|t: Seq<char>| #[trigger] sealed_text(t, self@.encryption, self@.secret)
                == field_text(lookup(json@, "msg"@)) ==> (r matches Some((_, m)) && m@ == t),
    {
        proof {
            reveal_strlit("from");
            reveal_strlit("msg");
        }
        let msg = json.text("msg");
        match open_text(&msg, &self.encryption, &self.secret) {
            Some(text) => Some((json.text("from"), text)),
            None => None,
        }
    }

    /// Draws a private number and makes the public number to send under `"a"`.
    fn send_public_number(&mut self) -> (m: SendPublicNumberMessage)
        requires
            old(self).p > 0,
        ensures
            m.key@ == "a"@,
            m.val == mod_pow(old(self).g as int, final(self).private as nat, old(self).p as int),
            final(self).name == old(self).name,
            final(self).state == old(self).state,
            final(self).messages_to_send == old(self).messages_to_send,
            final(self).p == old(self).p,
            final(self).g == old(self).g,
            final(self).public == old(self).public,
            final(self).secret == old(self).secret,
            final(self).encryption == old(self).encryption,
    {
        self.private = generate_private_number();
        let client_public_number = generate_public_number(self.p, self.g, self.private);
        SendPublicNumberMessage::new("a", client_public_number)
    }

    /// Takes the oldest waiting message and seals it for the wire.
    fn send_msg(&mut self) -> (m: NormalMessage)
        requires
            old(self).messages_to_send@.len() > 0,
        ensures
            m.sender@ == old(self).name@,
            m.content@ == sealed_text(old(self).messages_to_send@[0]@, old(self).encryption, old(self).secret),
            final(self).messages_to_send@ == old(self).messages_to_send@.drop_first(),
            final(self).name == old(self).name,
            final(self).state == old(self).state,
            final(self).p == old(self).p,
            final(self).g == old(self).g,
            final(self).private == old(self).private,
            final(self).public == old(self).public,
            final(self).secret == old(self).secret,
            final(self).encryption == old(self).encryption,
    {
        let msg = self.messages_to_send.pop_front().unwrap();
        let text = seal_text(&msg, &self.encryption, &self.secret);
        NormalMessage::new(self.name.clone(), text)
    }
}

} // verus!
