//! The per-connection state machine of the server. The connection's owner
//! reads the socket and talks to the store; this module decides, for each
//! event, what the connection does next and which side effects it asks for.

use vstd::prelude::*;
use crate::codec::{decode, decoded, encode, encoding};
use crate::message::{MessageType, MessageView};
use crate::text::same_text;

verus! {

/// Capacity of the buffer that one socket read fills; one read is decoded as
/// one message.
pub const BUFFER_SIZE: usize = 16384;

/// Receiver of every saved chat line: the relay has a single room.
pub const ROOM_ID: i64 = 1;

/// What the server is configured with.
pub struct ServerConfig {
    /// User name of the shared account.
    pub username: String,
    /// Password of the shared account.
    pub password: String,
    /// Whether a connection must log in before anything it sends is kept.
    pub require_login: bool,
}

/// Where a connection stands.
#[derive(Clone, Copy, Debug, PartialEq, Eq, Structural)]
pub enum Phase {
    /// Waiting for a `Login` with the configured credentials.
    AwaitingLogin,
    /// Waiting for the store to create the connection's user.
    Registering,
    /// Logged in; the value is the user id that keys the session.
    Active(i64),
    /// Finished: nothing more is read or written.
    Closed,
}

/// The two kinds of stored content.
#[derive(Clone, Copy, Debug, PartialEq, Eq, Structural)]
pub enum BlobKind {
    File,
    Image,
}

/// What happened on the connection.
#[derive(Debug)]
pub enum Event {
    /// One read returned these bytes (never empty).
    Received(Vec<u8>),
    /// A read returned no bytes: the peer closed the connection.
    PeerClosed,
    /// Reading from or writing to the socket failed.
    SocketFailed,
    /// The store created the connection's user under this id.
    UserCreated(i64),
    /// The store could not create the connection's user.
    UserCreationFailed,
}

/// A side effect that the connection's owner carries out.
#[derive(Debug, PartialEq, Eq)]
pub enum Action {
    /// Write these bytes to the socket.
    Send(Vec<u8>),
    /// Create a user for this connection and report the outcome as an event.
    CreateUser,
    /// Save a chat line.
    SaveText { sender_id: i64, receiver_id: i64, content: String },
    /// Write content to the store of its kind, under a generated name.
    StoreBlob { kind: BlobKind, client_name: String, bytes: Vec<u8> },
}

pub enum EventView {
    Received(Seq<u8>),
    PeerClosed,
    SocketFailed,
    UserCreated(i64),
    UserCreationFailed,
}

pub enum ActionView {
    Send(Seq<u8>),
    CreateUser,
    SaveText(i64, i64, Seq<char>),
    StoreBlob(BlobKind, Seq<char>, Seq<u8>),
}

impl View for Event {
    type V = EventView;

    open spec fn view(&self) -> EventView {
        match self {
            Event::Received(b) => EventView::Received(b@),
            Event::PeerClosed => EventView::PeerClosed,
            Event::SocketFailed => EventView::SocketFailed,
            Event::UserCreated(id) => EventView::UserCreated(*id),
            Event::UserCreationFailed => EventView::UserCreationFailed,
        }
    }
}

impl View for Action {
    type V = ActionView;

    open spec fn view(&self) -> ActionView {
        match self {
            Action::Send(b) => ActionView::Send(b@),
            Action::CreateUser => ActionView::CreateUser,
            Action::SaveText { sender_id, receiver_id, content } => ActionView::SaveText(
                *sender_id,
                *receiver_id,
                content@,
            ),
            Action::StoreBlob { kind, client_name, bytes } => ActionView::StoreBlob(
                *kind,
                client_name@,
                bytes@,
            ),
        }
    }
}

pub open spec fn actions_view(actions: Seq<Action>) -> Seq<ActionView> {
    actions.map_values(|a: Action| a@)
}

/// The phase a connection starts in, and what it asks for first.
pub open spec fn initial(cfg: ServerConfig) -> (Phase, Seq<ActionView>) {
    if cfg.require_login {
        (Phase::AwaitingLogin, seq![])
    } else {
        (Phase::Registering, seq![ActionView::CreateUser])
    }
}

/// What a decoded message does in phase `phase`.
pub open spec fn on_message(cfg: ServerConfig, phase: Phase, m: MessageView) -> (
    Phase,
    Seq<ActionView>,
) {
    match m {
        MessageView::Quit => (Phase::Closed, seq![]),
        _ => match phase {
            Phase::AwaitingLogin => match m {
                MessageView::Login(user, password) => {
                    if user == cfg.username@ && password == cfg.password@ {
                        (Phase::Registering, seq![ActionView::CreateUser])
                    } else {
                        (
                            Phase::Closed,
                            seq![
                                ActionView::Send(encoding(MessageView::LoginResponse(false))),
                                ActionView::Send(encoding(MessageView::Quit)),
                            ],
                        )
                    }
                },
                _ => (phase, seq![]),
            },
            Phase::Active(id) => match m {
                MessageView::Text(body) => (phase, seq![ActionView::SaveText(id, ROOM_ID, body)]),
                MessageView::File(name, content) => (
                    phase,
                    seq![ActionView::StoreBlob(BlobKind::File, name, content)],
                ),
                MessageView::Image(name, content) => (
                    phase,
                    seq![ActionView::StoreBlob(BlobKind::Image, name, content)],
                ),
                _ => (phase, seq![]),
            },
            _ => (phase, seq![]),
        },
    }
}

/// The next phase after `e` in phase `phase`, and the side effects asked for.
pub open spec fn next(cfg: ServerConfig, phase: Phase, e: EventView) -> (Phase, Seq<ActionView>) {
    if phase == Phase::Closed {
        (Phase::Closed, seq![])
    } else {
        match e {
            EventView::PeerClosed => (Phase::Closed, seq![]),
            EventView::SocketFailed => (Phase::Closed, seq![]),
            EventView::UserCreated(id) => {
                if phase == Phase::Registering {
                    (
                        Phase::Active(id),
                        if cfg.require_login {
                            seq![ActionView::Send(encoding(MessageView::LoginResponse(true)))]
                        } else {
                            seq![]
                        },
                    )
                } else {
                    (phase, seq![])
                }
            },
            EventView::UserCreationFailed => {
                if phase == Phase::Registering {
                    (Phase::Closed, seq![])
                } else {
                    (phase, seq![])
                }
            },
            EventView::Received(b) => match decoded(b) {
                Some(m) => on_message(cfg, phase, m),
                None => (phase, seq![]),
            },
        }
    }
}

/// The phase after the events `es` in turn, starting in `phase`, and every
/// side effect asked for on the way, in order.
pub open spec fn run(cfg: ServerConfig, phase: Phase, es: Seq<EventView>) -> (
    Phase,
    Seq<ActionView>,
)
    decreases es.len(),
{
    if es.len() == 0 {
        (phase, seq![])
    } else {
        let (mid, first) = next(cfg, phase, es[0]);
        let (last, rest) = run(cfg, mid, es.drop_first());
        (last, first + rest)
    }
}

/// A closed connection stays closed and asks for nothing, whatever happens.
pub proof fn lemma_closed_is_final(cfg: ServerConfig, es: Seq<EventView>)
    ensures
        run(cfg, Phase::Closed, es) == (Phase::Closed, Seq::<ActionView>::empty()),
    decreases es.len(),
{
    if es.len() > 0 {
        lemma_closed_is_final(cfg, es.drop_first());
        assert(Seq::<ActionView>::empty() + Seq::<ActionView>::empty() =~= Seq::<ActionView>::empty());
    }
}

/// `Quit` closes an open connection at once; nothing that comes after it is
/// acted on.
pub proof fn lemma_quit_terminates(
    cfg: ServerConfig,
    phase: Phase,
    quit: Seq<u8>,
    later: Seq<EventView>,
)
    requires
        phase != Phase::Closed,
        decoded(quit) == Some(MessageView::Quit),
    ensures
        run(cfg, phase, seq![EventView::Received(quit)] + later) == (
            Phase::Closed,
            Seq::<ActionView>::empty(),
        ),
{
    let es = seq![EventView::Received(quit)] + later;
    assert(es.drop_first() =~= later);
    lemma_closed_is_final(cfg, later);
    assert(Seq::<ActionView>::empty() + Seq::<ActionView>::empty() =~= Seq::<ActionView>::empty());
}

/// With the configured credentials, a login makes the store create a user;
/// the client is then told `LoginResponse(true)`, and a following text is
/// saved under the id that the store gave.
pub proof fn lemma_login_success(
    cfg: ServerConfig,
    login: Seq<u8>,
    id: i64,
    text: Seq<u8>,
    body: Seq<char>,
)
    requires
        cfg.require_login,
        decoded(login) == Some(MessageView::Login(cfg.username@, cfg.password@)),
        decoded(text) == Some(MessageView::Text(body)),
    ensures
        run(
            cfg,
            Phase::AwaitingLogin,
            seq![EventView::Received(login), EventView::UserCreated(id), EventView::Received(text)],
        ) == (
            Phase::Active(id),
            seq![
                ActionView::CreateUser,
                ActionView::Send(encoding(MessageView::LoginResponse(true))),
                ActionView::SaveText(id, ROOM_ID, body),
            ],
        ),
{
    let es = seq![EventView::Received(login), EventView::UserCreated(id), EventView::Received(text)];
    let e2 = es.drop_first();
    let e3 = e2.drop_first();
    assert(e2 =~= seq![EventView::UserCreated(id), EventView::Received(text)]);
    assert(e3 =~= seq![EventView::Received(text)]);
    assert(e3.drop_first() =~= Seq::<EventView>::empty());
    let n3 = next(cfg, Phase::Active(id), EventView::Received(text));
    assert(n3 == (Phase::Active(id), seq![ActionView::SaveText(id, ROOM_ID, body)]));
    assert(run(cfg, n3.0, e3.drop_first()) == (Phase::Active(id), Seq::<ActionView>::empty()));
    let r3 = run(cfg, Phase::Active(id), e3);
    assert(r3.1 =~= seq![ActionView::SaveText(id, ROOM_ID, body)]);
    let r2 = run(cfg, Phase::Registering, e2);
    assert(r2.1 =~= seq![
        ActionView::Send(encoding(MessageView::LoginResponse(true))),
        ActionView::SaveText(id, ROOM_ID, body),
    ]);
    assert(run(cfg, Phase::AwaitingLogin, es).1 =~= seq![
        ActionView::CreateUser,
        ActionView::Send(encoding(MessageView::LoginResponse(true))),
        ActionView::SaveText(id, ROOM_ID, body),
    ]);
}

/// With wrong credentials, a login is answered by `LoginResponse(false)` and
/// `Quit`, the connection closes, and nothing sent afterwards is saved or
/// stored.
pub proof fn lemma_login_failure(
    cfg: ServerConfig,
    login: Seq<u8>,
    user: Seq<char>,
    password: Seq<char>,
    later: Seq<EventView>,
)
    requires
        decoded(login) == Some(MessageView::Login(user, password)),
        !(user == cfg.username@ && password == cfg.password@),
    ensures
        run(cfg, Phase::AwaitingLogin, seq![EventView::Received(login)] + later) == (
            Phase::Closed,
            seq![
                ActionView::Send(encoding(MessageView::LoginResponse(false))),
                ActionView::Send(encoding(MessageView::Quit)),
            ],
        ),
{
    let es = seq![EventView::Received(login)] + later;
    assert(es.drop_first() =~= later);
    lemma_closed_is_final(cfg, later);
    let replies = seq![
        ActionView::Send(encoding(MessageView::LoginResponse(false))),
        ActionView::Send(encoding(MessageView::Quit)),
    ];
    assert(replies + Seq::<ActionView>::empty() =~= replies);
}

/// A file or an image sent on a logged-in connection is handed to the store
/// with exactly the bytes that were sent; the client's file name travels
/// along only as a label (the stored path is `blob_path_text`, which depends
/// on the kind and the time alone).
pub proof fn lemma_blob_kept(cfg: ServerConfig, id: i64, b: Seq<u8>, name: Seq<char>, content: Seq<u8>)
    ensures
        decoded(b) == Some(MessageView::File(name, content)) ==> next(
            cfg,
            Phase::Active(id),
            EventView::Received(b),
        ) == (Phase::Active(id), seq![ActionView::StoreBlob(BlobKind::File, name, content)]),
        decoded(b) == Some(MessageView::Image(name, content)) ==> next(
            cfg,
            Phase::Active(id),
            EventView::Received(b),
        ) == (Phase::Active(id), seq![ActionView::StoreBlob(BlobKind::Image, name, content)]),
{
}

/// Every chat line that a logged-in connection saves carries the connection's
/// own user id as its sender, whatever arrives later.
pub proof fn lemma_texts_attributed(cfg: ServerConfig, id: i64, es: Seq<EventView>)
    ensures
        run(cfg, Phase::Active(id), es).0 == Phase::Active(id) || run(
            cfg,
            Phase::Active(id),
            es,
        ).0 == Phase::Closed,
        forall|k: int|
            0 <= k < run(cfg, Phase::Active(id), es).1.len() ==> match #[trigger] run(
                cfg,
                Phase::Active(id),
                es,
            ).1[k] {
                ActionView::SaveText(sender, _, _) => sender == id,
                _ => true,
            },
    decreases es.len(),
{
    if es.len() > 0 {
        let (mid, first) = next(cfg, Phase::Active(id), es[0]);
        lemma_texts_attributed(cfg, id, es.drop_first());
        if mid == Phase::Closed {
            lemma_closed_is_final(cfg, es.drop_first());
        }
        let whole = run(cfg, Phase::Active(id), es).1;
        let rest = run(cfg, mid, es.drop_first()).1;
        assert(whole == first + rest);
        assert forall|k: int| 0 <= k < whole.len() implies match #[trigger] whole[k] {
            ActionView::SaveText(sender, _, _) => sender == id,
            _ => true,
        } by {
            if k >= first.len() {
                assert(whole[k] == rest[k - first.len()]);
            }
        }
    }
}

/// The state of one connection.
pub struct Session {
    pub phase: Phase,
}

fn one(a: Action) -> (r: Vec<Action>)
    ensures
        actions_view(r@) == seq![a@],
{
    let mut r: Vec<Action> = Vec::new();
    r.push(a);
    assert(actions_view(r@) =~= seq![a@]);
    r
}

fn none() -> (r: Vec<Action>)
    ensures
        actions_view(r@) == Seq::<ActionView>::empty(),
{
    let r: Vec<Action> = Vec::new();
    assert(actions_view(r@) =~= Seq::<ActionView>::empty());
    r
}

impl Session {
    /// A new connection, and the side effects it asks for before any read.
    pub fn start(cfg: &ServerConfig) -> (r: (Session, Vec<Action>))
        ensures
            (r.0.phase, actions_view(r.1@)) == initial(*cfg),
    {
        if cfg.require_login {
            (Session { phase: Phase::AwaitingLogin }, none())
        } else {
            (Session { phase: Phase::Registering }, one(Action::CreateUser))
        }
    }

    /// Whether the connection is finished.
    pub fn is_closed(&self) -> (r: bool)
        ensures
            r == (self.phase == Phase::Closed),
    {
        matches!(self.phase, Phase::Closed)
    }

    /// The id that keys the session, once logged in.
    pub fn user_id(&self) -> (r: Option<i64>)
        ensures
            r == (match self.phase {
                Phase::Active(id) => Some(id),
                _ => None,
            }),
    {
        match self.phase {
            Phase::Active(id) => Some(id),
            _ => None,
        }
    }

    fn handle_message(&mut self, cfg: &ServerConfig, m: MessageType) -> (r: Vec<Action>)
        requires
            old(self).phase != Phase::Closed,
        ensures
            (final(self).phase, actions_view(r@)) == on_message(*cfg, old(self).phase, m@),
    {
        match m {
            MessageType::Quit => {
                self.phase = Phase::Closed;
                none()
            },
            MessageType::Login(user, password) => {
                if self.phase != Phase::AwaitingLogin {
                    return none();
                }
                if same_text(user.as_str(), cfg.username.as_str()) && same_text(
                    password.as_str(),
                    cfg.password.as_str(),
                ) {
                    self.phase = Phase::Registering;
                    one(Action::CreateUser)
                } else {
                    self.phase = Phase::Closed;
                    let mut r: Vec<Action> = Vec::new();
                    r.push(Action::Send(encode(&MessageType::LoginResponse(false))));
                    r.push(Action::Send(encode(&MessageType::Quit)));
                    assert(actions_view(r@) =~= seq![
                        ActionView::Send(encoding(MessageView::LoginResponse(false))),
                        ActionView::Send(encoding(MessageView::Quit)),
                    ]);
                    r
                }
            },
            MessageType::Text(body) => match self.phase {
                Phase::Active(id) => one(
                    Action::SaveText { sender_id: id, receiver_id: ROOM_ID, content: body },
                ),
                _ => none(),
            },
            MessageType::File(name, content) => match self.phase {
                Phase::Active(_) => one(
                    Action::StoreBlob { kind: BlobKind::File, client_name: name, bytes: content },
                ),
                _ => none(),
            },
            MessageType::Image(name, content) => match self.phase {
                Phase::Active(_) => one(
                    Action::StoreBlob { kind: BlobKind::Image, client_name: name, bytes: content },
                ),
                _ => none(),
            },
            MessageType::LoginResponse(_) => none(),
        }
    }

    /// Moves the connection on by one event; returns the side effects to carry
    /// out, in order.
    pub fn step(&mut self, cfg: &ServerConfig, event: Event) -> (r: Vec<Action>)
        ensures
            (final(self).phase, actions_view(r@)) == next(*cfg, old(self).phase, event@),
    {
        if self.phase == Phase::Closed {
            return none();
        }
        match event {
            Event::PeerClosed | Event::SocketFailed => {
                self.phase = Phase::Closed;
                none()
            },
            Event::UserCreated(id) => {
                if self.phase != Phase::Registering {
                    return none();
                }
                self.phase = Phase::Active(id);
                if cfg.require_login {
                    one(Action::Send(encode(&MessageType::LoginResponse(true))))
                } else {
                    none()
                }
            },
            Event::UserCreationFailed => {
                if self.phase == Phase::Registering {
                    self.phase = Phase::Closed;
                }
                none()
            },
            Event::Received(bytes) => match decode(bytes.as_slice()) {
                Ok(m) => self.handle_message(cfg, m),
                Err(_) => none(),
            },
        }
    }
}

} // verus!
