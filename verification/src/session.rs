//! A connection: who is behind it, and what becomes of the commands that come
//! in on it.
use vstd::prelude::*;
use vstd::utf8::encode_utf8;
use crate::keys::UserKey;
use crate::protocol::{refuse, ClientCommand, RefusalView, ServerCommand, ServerCommandView};
use crate::server::ServerState;

verus! {

/// How many bytes a token has.
pub const TOKEN_LEN: usize = 32;

/// A connection.
///
/// `user` is set once the client has said who they are; the connection then
/// holds that user. They get one chance to do so, the `ticket`, and the first
/// command of any kind uses it up. A connection that has `panicked` takes no
/// more commands.
pub struct Session {
    pub id: u128,
    pub version: u8,
    pub user: Option<UserKey>,
    pub user_name: String,
    pub panicked: bool,
    pub ticket: bool,
}

/// Who is behind a token.
#[derive(Debug, PartialEq, Eq)]
pub struct Identity {
    pub id: i32,
    pub name: String,
    pub language: String,
}

/// What is to be done with a command.
#[derive(Debug, PartialEq, Eq)]
pub enum Receipt {
    /// Nothing.
    Ignore,
    /// This goes back to the client.
    Reply(ServerCommand),
    /// Find out who is behind the token, and hand it to
    /// [`Session::identified`].
    Identify,
    /// The command is one of this user, and is to be carried out.
    Process(UserKey),
}

/// The mathematical value of a [`Receipt`].
pub enum ReceiptView {
    Ignore,
    Reply(ServerCommandView),
    Identify,
    Process(UserKey),
}

impl View for Receipt {
    type V = ReceiptView;

    open spec fn view(&self) -> ReceiptView {
        match *self {
            Receipt::Ignore => ReceiptView::Ignore,
            Receipt::Reply(cmd) => ReceiptView::Reply(cmd@),
            Receipt::Identify => ReceiptView::Identify,
            Receipt::Process(user) => ReceiptView::Process(user),
        }
    }
}

impl Session {
    /// A command comes in.
    pub open spec fn hears(self, cmd: ClientCommand) -> (Session, ReceiptView) {
        let s = Session { ticket: false, ..self };
        if self.panicked {
            (s, ReceiptView::Ignore)
        } else if cmd is Ping {
            (s, ReceiptView::Reply(ServerCommandView::Pong))
        } else {
            match self.user {
                Some(user) => (s, ReceiptView::Process(user)),
                None => match cmd {
                    ClientCommand::Authenticate { token } => if !self.ticket {
                        (s, ReceiptView::Ignore)
                    } else if encode_utf8(token@).len() != TOKEN_LEN {
                        (
                            Session { panicked: true, ..s },
                            ReceiptView::Reply(
                                ServerCommandView::Authenticate(
                                    Err(RefusalView::Text("invalid token"@)),
                                ),
                            ),
                        )
                    } else {
                        (s, ReceiptView::Identify)
                    },
                    _ => (s, ReceiptView::Ignore),
                },
            }
        }
    }

    /// Nobody has said who they are on the connection, and nobody can any
    /// more.
    pub open spec fn hopeless(self) -> bool {
        self.user is None && !self.ticket
    }

    /// A connection on which nobody has said anything yet.
    pub fn new(id: u128, version: u8) -> (r: Self)
        ensures
            r.id == id,
            r.version == version,
            r.user is None,
            r.user_name@ == Seq::<char>::empty(),
            !r.panicked,
            r.ticket,
    {
        Session { id, version, user: None, user_name: String::new(), panicked: false, ticket: true }
    }

    /// The version of the protocol that the client speaks.
    pub fn version(&self) -> (r: u8)
        ensures
            r == self.version,
    {
        self.version
    }

    /// The name of the user.
    pub fn name(&self) -> (r: &str)
        ensures
            r@ == self.user_name@,
    {
        self.user_name.as_str()
    }

    /// Tells whether the connection is of no use any more: nobody has said who
    /// they are, and nobody can.
    pub fn is_hopeless(&self) -> (r: bool)
        ensures
            r == self.hopeless(),
    {
        self.user.is_none() && !self.ticket
    }

    /// Takes a command in.
    pub fn receive(&mut self, cmd: &ClientCommand) -> (r: Receipt)
        ensures
            (*final(self), r@) == old(self).hears(*cmd),
    {
        let ticket: bool = self.ticket;
        self.ticket = false;
        if self.panicked {
            return Receipt::Ignore;
        }
        if let ClientCommand::Ping = cmd {
            return Receipt::Reply(ServerCommand::Pong);
        }
        match self.user {
            Some(user) => Receipt::Process(user),
            None => match cmd {
                ClientCommand::Authenticate { token } => if !ticket {
                    Receipt::Ignore
                } else if token.as_str().as_bytes().len() != TOKEN_LEN {
                    self.panicked = true;
                    Receipt::Reply(ServerCommand::Authenticate(Err(refuse("invalid token"))))
                } else {
                    Receipt::Identify
                },
                _ => Receipt::Ignore,
            },
        }
    }

    /// Takes who is behind the token, or that it could not be found out. The
    /// command that is returned goes back to the client.
    pub fn identified(&mut self, server: &mut ServerState, found: Option<Identity>) -> (r:
        ServerCommand)
        requires
            old(server)@.wf(),
            old(server)@.next_key < u64::MAX,
        ensures
            match found {
                None => {
                    &&& *final(self) == (Session { panicked: true, ..*old(self) })
                    &&& final(server)@ == old(server)@
                    &&& r@ == ServerCommandView::Authenticate(
                        Err(RefusalView::Text("failed to fetch info"@)),
                    )
                },
                Some(who) => {
                    &&& final(server)@ == old(server)@.sign_in(
                        old(self).id,
                        who.id,
                        who.name,
                        who.language,
                    )
                    &&& *final(self) == (Session {
                        user: Some(old(server)@.key_for(who.id)),
                        user_name: final(server)@.users[old(server)@.key_for(who.id)].name,
                        ..*old(self)
                    })
                    &&& r@ == ServerCommandView::Authenticate(
                        Ok(final(server)@.greeting(old(server)@.key_for(who.id))),
                    )
                    &&& final(server)@.users.contains_key(old(server)@.key_for(who.id))
                },
            },
            final(server)@.wf(),
    {
        match found {
            None => {
                self.panicked = true;
                ServerCommand::Authenticate(Err(refuse("failed to fetch info")))
            },
            Some(who) => {
                let (key, greeting) = server.sign_in(self.id, who.id, who.name, who.language);
                self.user = Some(key);
                self.user_name = server.users.name(key);
                greeting
            },
        }
    }

    /// Takes note that a reply could not be sent.
    pub fn fail(&mut self)
        ensures
            *final(self) == (Session { panicked: true, ..*old(self) }),
    {
        self.panicked = true;
    }
}

/// Tells whether a client that was last heard of at `last_recv` still counts
/// as there at `now`.
pub fn is_alive(last_recv: u64, timeout: u64, now: u64) -> (r: bool)
    ensures
        r == (last_recv + timeout > now),
{
    last_recv as u128 + timeout as u128 > now as u128
}

/// Until a client has said who they are, none of their commands is carried
/// out, and the first command is their only chance to say so.
pub proof fn law_identify_first(s: Session, cmd: ClientCommand)
    requires
        s.user is None,
    ensures
        s.hears(cmd).1 !is Process,
        s.hears(cmd).0.hopeless(),
        s.hears(cmd).1 is Identify <==> s.ticket && !s.panicked && (cmd matches
            ClientCommand::Authenticate { token } && encode_utf8(token@).len() == TOKEN_LEN),
        s.hopeless() ==> s.hears(cmd).1 is Ignore || s.hears(cmd).1 == ReceiptView::Reply(
            ServerCommandView::Pong,
        ),
{
}

/// Commands never change who is behind a connection, and a connection that has
/// panicked answers nothing, for good.
pub proof fn law_session_settled(s: Session, cmd: ClientCommand)
    ensures
        s.hears(cmd).0.user == s.user,
        s.hears(cmd).0.user_name == s.user_name,
        s.hears(cmd).0.id == s.id,
        s.panicked ==> s.hears(cmd).1 is Ignore && s.hears(cmd).0.panicked,
        !s.panicked && cmd is Ping ==> s.hears(cmd).1 == ReceiptView::Reply(
            ServerCommandView::Pong,
        ),
        !s.panicked && cmd !is Ping ==> (s.user matches Some(user) ==> s.hears(cmd).1
            == ReceiptView::Process(user)),
{
}

} // verus!
