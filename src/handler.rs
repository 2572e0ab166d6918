//! The state machine of one connection. A connection is unauthenticated
//! while its username is empty; a successful registration or login sets the
//! username and registers the connection's sink under it. The caller feeds
//! it received lines and the answers of the credential store, and performs
//! the writes that each step plans.

use vstd::prelude::*;
use vstd::string::*;
use crate::protocol::{command_of, parse_command, Command, CommandModel};
use crate::registry::{
    broadcast_plan, inserted, plan_view, removed, whisper_plan, Delivery, Registry,
};

verus! {

/// Which credential operation a line asks for.
#[derive(PartialEq, Eq, Structural, Clone, Copy, Debug)]
pub enum AuthKind {
    Register,
    Login,
}

/// A credential operation for the caller to run against the store.
pub struct AuthRequest {
    pub kind: AuthKind,
    pub user: String,
    pub pass: String,
}

/// Everything one received line leads to.
pub struct Outcome {
    /// Text to write, each to its sink, in this order.
    pub deliveries: Vec<Delivery>,
    /// A line to append to the chat log.
    pub log_entry: Option<String>,
    /// A credential operation whose answer goes to [`Connection::complete_auth`].
    pub request: Option<AuthRequest>,
    /// Whether the connection is to be closed.
    pub close: bool,
}

pub ghost struct OutcomeModel {
    pub deliveries: Seq<(u64, Seq<char>)>,
    pub log_entry: Option<Seq<char>>,
    pub request: Option<(AuthKind, Seq<char>, Seq<char>)>,
    pub close: bool,
}

impl View for Outcome {
    type V = OutcomeModel;

    open spec fn view(&self) -> OutcomeModel {
        OutcomeModel {
            deliveries: plan_view(self.deliveries@),
            log_entry: match self.log_entry {
                Some(l) => Some(l@),
                None => None,
            },
            request: match self.request {
                Some(q) => Some((q.kind, q.user@, q.pass@)),
                None => None,
            },
            close: self.close,
        }
    }
}

pub open spec fn log_text(user: Seq<char>, text: Seq<char>) -> Seq<char> {
    user + ": "@ + text + "\n"@
}

pub open spec fn success_text(kind: AuthKind) -> Seq<char> {
    match kind {
        AuthKind::Register => "Registration successful\n"@,
        AuthKind::Login => "Login successful\n"@,
    }
}

pub open spec fn failure_text(kind: AuthKind) -> Seq<char> {
    match kind {
        AuthKind::Register => "Registration error\n"@,
        AuthKind::Login => "Login error\n"@,
    }
}

pub open spec fn quiet() -> OutcomeModel {
    OutcomeModel { deliveries: Seq::empty(), log_entry: None, request: None, close: false }
}

pub open spec fn reply(sink: u64, text: Seq<char>, close: bool) -> OutcomeModel {
    OutcomeModel { deliveries: seq![(sink, text)], log_entry: None, request: None, close }
}

pub open spec fn ask(kind: AuthKind, user: Seq<char>, pass: Seq<char>) -> OutcomeModel {
    OutcomeModel {
        deliveries: Seq::empty(),
        log_entry: None,
        request: Some((kind, user, pass)),
        close: false,
    }
}

pub open spec fn chat(s: Seq<(Seq<char>, u64)>, me: Seq<char>, text: Seq<char>) -> OutcomeModel {
    OutcomeModel {
        deliveries: broadcast_plan(s, me, text),
        log_entry: Some(log_text(me, text)),
        request: None,
        close: false,
    }
}

/// What a connection with username `me` and sink `sink` does on `cmd`, given
/// the registry's sessions `s`.
pub open spec fn step(me: Seq<char>, sink: u64, s: Seq<(Seq<char>, u64)>, cmd: CommandModel) -> OutcomeModel {
    let authed = me.len() > 0;
    match cmd {
        CommandModel::Empty => quiet(),
        CommandModel::Malformed => quiet(),
        CommandModel::Register(u, p) => ask(AuthKind::Register, u, p),
        CommandModel::Login(u, p) => ask(AuthKind::Login, u, p),
        CommandModel::Msg(m) => if authed {
            chat(s, me, m)
        } else {
            reply(sink, "Please log in first\n"@, false)
        },
        CommandModel::Whisper(t, m) => if authed {
            OutcomeModel {
                deliveries: whisper_plan(s, me, t, m),
                log_entry: None,
                request: None,
                close: false,
            }
        } else {
            reply(sink, "Please log in first\n"@, false)
        },
        CommandModel::Exit => reply(sink, "Goodbye!\n"@, true),
        CommandModel::Chat(t) => if authed {
            chat(s, me, t)
        } else {
            reply(sink, "Please log in or register\n"@, false)
        },
    }
}

/// Before it has authenticated, a connection writes only to its own sink and
/// logs nothing, whatever it sends: no other session hears from it.
pub proof fn lemma_unauthenticated_reaches_no_one(
    sink: u64,
    s: Seq<(Seq<char>, u64)>,
    cmd: CommandModel,
)
    ensures
        step(Seq::empty(), sink, s, cmd).log_entry is None,
        forall|k: int|
            0 <= k < step(Seq::empty(), sink, s, cmd).deliveries.len() ==> (#[trigger] step(
                Seq::empty(),
                sink,
                s,
                cmd,
            ).deliveries[k]).0 == sink,
{
}

/// Every credential request that a line leads to names a non-empty user, so
/// an accepted one leaves the connection authenticated under that name, and
/// its registry entry is removed when it disconnects.
pub proof fn lemma_requested_user_not_empty(
    me: Seq<char>,
    sink: u64,
    s: Seq<(Seq<char>, u64)>,
    line: Seq<char>,
)
    ensures
        step(me, sink, s, command_of(line)).request matches Some(q) ==> q.1.len() > 0,
{
    crate::protocol::lemma_credential_user_not_empty(line);
    lemma_request_from_command(me, sink, s, command_of(line));
}

proof fn lemma_request_from_command(
    me: Seq<char>,
    sink: u64,
    s: Seq<(Seq<char>, u64)>,
    cmd: CommandModel,
)
    ensures
        step(me, sink, s, cmd).request matches Some(q) ==> (cmd matches CommandModel::Register(
            u,
            _,
        ) && q.1 == u) || (cmd matches CommandModel::Login(u, _) && q.1 == u),
{
}

/// The line that the chat log records for `text` sent by `user`.
pub fn log_line(user: &str, text: &str) -> (r: String)
    ensures
        r@ == log_text(user@, text@),
{
    let mut r = String::from_str(user);
    r.append(": ");
    r.append(text);
    r.append("\n");
    r
}

fn reply_to(sink: u64, text: &str, close: bool) -> (r: Outcome)
    ensures
        r@ == reply(sink, text@, close),
{
    let mut d: Vec<Delivery> = Vec::new();
    d.push(Delivery { sink, text: String::from_str(text) });
    let r = Outcome { deliveries: d, log_entry: None, request: None, close };
    assert(r@.deliveries =~= seq![(sink, text@)]);
    r
}

fn quiet_outcome(request: Option<AuthRequest>) -> (r: Outcome)
    ensures
        r@.deliveries == Seq::<(u64, Seq<char>)>::empty(),
        r@.log_entry is None,
        r@.close == false,
        r.request == request,
{
    let r = Outcome { deliveries: Vec::new(), log_entry: None, request, close: false };
    assert(r@.deliveries =~= Seq::<(u64, Seq<char>)>::empty());
    r
}

fn chat_outcome(registry: &Registry, me: &str, text: &str) -> (r: Outcome)
    ensures
        r@ == chat(registry@, me@, text@),
{
    Outcome {
        deliveries: registry.broadcast(me, text),
        log_entry: Some(log_line(me, text)),
        request: None,
        close: false,
    }
}

/// One connection: its sink and the username it authenticated as, empty until then.
pub struct Connection {
    username: String,
    sink: u64,
}

impl View for Connection {
    type V = (Seq<char>, u64);

    closed spec fn view(&self) -> (Seq<char>, u64) {
        (self.username@, self.sink)
    }
}

impl Connection {
    /// A fresh, unauthenticated connection writing to `sink`.
    pub fn new(sink: u64) -> (r: Connection)
        ensures
            r@ == (Seq::<char>::empty(), sink),
    {
        Connection { username: String::new(), sink }
    }

    /// The username, empty while unauthenticated.
    pub fn username(&self) -> (r: &str)
        ensures
            r@ == self@.0,
    {
        self.username.as_str()
    }

    pub fn sink(&self) -> (r: u64)
        ensures
            r == self@.1,
    {
        self.sink
    }

    pub fn is_authenticated(&self) -> (r: bool)
        ensures
            r == (self@.0.len() > 0),
    {
        self.username.unicode_len() > 0
    }

    /// Plans what the received `line` leads to. The registry is read, not changed.
    pub fn handle_line(&self, registry: &Registry, line: &str) -> (r: Outcome)
        requires
            registry.wf(),
        ensures
            r@ == step(self@.0, self@.1, registry@, command_of(line@)),
    {
        self.handle_command(registry, parse_command(line))
    }

    /// Plans what `cmd` leads to.
    pub fn handle_command(&self, registry: &Registry, cmd: Command) -> (r: Outcome)
        requires
            registry.wf(),
        ensures
            r@ == step(self@.0, self@.1, registry@, cmd@),
    {
        let authed = self.is_authenticated();
        let me = self.username.as_str();
        match cmd {
            Command::Empty | Command::Malformed => quiet_outcome(None),
            Command::Register { user, pass } => quiet_outcome(
                Some(AuthRequest { kind: AuthKind::Register, user, pass }),
            ),
            Command::Login { user, pass } => quiet_outcome(
                Some(AuthRequest { kind: AuthKind::Login, user, pass }),
            ),
            Command::Msg { text } => {
                if authed {
                    chat_outcome(registry, me, text.as_str())
                } else {
                    reply_to(self.sink, "Please log in first\n", false)
                }
            },
            Command::Whisper { target, text } => {
                if authed {
                    let mut q = quiet_outcome(None);
                    q.deliveries = registry.whisper(me, target.as_str(), text.as_str());
                    q
                } else {
                    reply_to(self.sink, "Please log in first\n", false)
                }
            },
            Command::Exit => reply_to(self.sink, "Goodbye!\n", true),
            Command::Chat { line } => {
                if authed {
                    chat_outcome(registry, me, line.as_str())
                } else {
                    reply_to(self.sink, "Please log in or register\n", false)
                }
            },
        }
    }

    /// Takes the credential store's answer to a request: on acceptance the
    /// connection becomes `user`, which is never empty, and its sink is
    /// registered under that name. Returns the reply to write to this connection.
    pub fn complete_auth(&mut self, registry: &mut Registry, kind: AuthKind, user: &str, accepted: bool) -> (r: Delivery)
        requires
            old(registry).wf(),
            accepted ==> user@.len() > 0,
        ensures
            final(registry).wf(),
            r@ == (old(self)@.1, if accepted { success_text(kind) } else { failure_text(kind) }),
            accepted ==> final(self)@.0.len() > 0,
            accepted ==> final(self)@ == (user@, old(self)@.1) && final(registry)@ == inserted(
                old(registry)@,
                user@,
                old(self)@.1,
            ),
            !accepted ==> final(self)@ == old(self)@ && final(registry)@ == old(registry)@,
    {
        if accepted {
            self.username = String::from_str(user);
            registry.insert(user, self.sink);
            let text = match kind {
                AuthKind::Register => String::from_str("Registration successful\n"),
                AuthKind::Login => String::from_str("Login successful\n"),
            };
            Delivery { sink: self.sink, text }
        } else {
            let text = match kind {
                AuthKind::Register => String::from_str("Registration error\n"),
                AuthKind::Login => String::from_str("Login error\n"),
            };
            Delivery { sink: self.sink, text }
        }
    }

    /// Ends the connection: an authenticated one leaves the registry.
    pub fn disconnect(&self, registry: &mut Registry)
        requires
            old(registry).wf(),
        ensures
            final(registry).wf(),
            final(registry)@ == if self@.0.len() > 0 {
                removed(old(registry)@, self@.0)
            } else {
                old(registry)@
            },
    {
        if self.is_authenticated() {
            registry.remove(self.username.as_str());
        }
    }
}

}
