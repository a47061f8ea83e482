//! The session registry: the single owner of all chat state. It takes one
//! event at a time (a connection opened or closed, a frame received, a file
//! stored) and answers with the messages to write to each connection.
//!
//! A connection is anonymous until it logs in, and then stays bound to that
//! account for its lifetime. A request that an anonymous connection may not
//! make, and a frame that cannot be decoded, get the reply `Closed`; the
//! registry treats that reply as advisory and leaves it to the transport to
//! keep or drop the connection.

use vstd::prelude::*;
use crate::api::{
    copy_opt, messages_view, Channel, ChannelView, ClientMessage, ClientMessageView, ContentView,
    LoginError, Message, MessageType, MessageView, ServerMessage, ServerMessageView,
};
use crate::channels::{channels_wf, service_channels, ChannelInfoView, Channels};
use crate::codec::{client_fits, decode_client, enc_client, lemma_client_round_trip, parse_client};
use crate::users::{accounts_full, accounts_wf, find_account, profile, AccountView, Users};

verus! {

/// The transport address of a connection's peer. IPv4 addresses are held in
/// their IPv6-mapped form.
#[derive(Clone, Copy, Debug, PartialEq, Eq, Structural, Hash)]
pub struct Peer {
    pub ip: u128,
    pub port: u16,
}

/// A live connection and the account it is bound to, if any. The transport
/// keeps the connection's outbound queue and its cancellation handle beside
/// this record, under the same address.
#[derive(Clone, Copy, Debug)]
pub struct Connection {
    pub peer: Peer,
    pub logged: Option<u32>,
}

/// A message to write to one connection.
#[derive(Debug, PartialEq, Eq)]
pub struct Delivery {
    pub to: Peer,
    pub message: ServerMessage,
}

pub struct DeliveryView {
    pub to: Peer,
    pub message: ServerMessageView,
}

impl View for Delivery {
    type V = DeliveryView;

    open spec fn view(&self) -> DeliveryView {
        DeliveryView { to: self.to, message: self.message@ }
    }
}

/// A file sent by a logged-in connection. It goes to the blob store, and the
/// reference the store answers is then handed to `Registry::attach_file`.
#[derive(Debug, PartialEq, Eq)]
pub struct Upload {
    pub chan: u32,
    pub ext: String,
    pub bytes: Vec<u8>,
}

pub struct UploadView {
    pub chan: u32,
    pub ext: Seq<char>,
    pub bytes: Seq<u8>,
}

impl View for Upload {
    type V = UploadView;

    open spec fn view(&self) -> UploadView {
        UploadView { chan: self.chan, ext: self.ext@, bytes: self.bytes@ }
    }
}

/// What the registry asks for after a received frame.
#[derive(Debug, PartialEq, Eq)]
pub enum Reaction {
    /// Write these messages, in this order.
    Send(Vec<Delivery>),
    /// Store this file, then call `Registry::attach_file` with its reference.
    Store(Upload),
}

pub enum ReactionView {
    Send(Seq<DeliveryView>),
    Store(UploadView),
}

pub open spec fn deliveries_view(ds: Seq<Delivery>) -> Seq<DeliveryView> {
    ds.map_values(|d: Delivery| d@)
}

impl View for Reaction {
    type V = ReactionView;

    open spec fn view(&self) -> ReactionView {
        match self {
            Reaction::Send(ds) => ReactionView::Send(deliveries_view(ds@)),
            Reaction::Store(u) => ReactionView::Store(u@),
        }
    }
}

pub open spec fn reply(to: Peer, message: ServerMessageView) -> DeliveryView {
    DeliveryView { to, message }
}

/// The messages of `history` posted to channel `id`, in their order.
pub open spec fn channel_history(history: Seq<MessageView>, id: u32) -> Seq<MessageView> {
    history.filter(|m: MessageView| m.chan == id)
}

/// All chat state: the accounts, the channels, every message posted so far
/// in arrival order, and the live connections.
pub struct RegistryView {
    pub accounts: Seq<AccountView>,
    pub channels: Seq<ChannelInfoView>,
    pub history: Seq<MessageView>,
    pub conns: Seq<Connection>,
}

impl RegistryView {
    pub open spec fn wf(self) -> bool {
        &&& accounts_wf(self.accounts)
        &&& channels_wf(self.channels)
        &&& forall|i: int, j: int|
            0 <= i < j < self.conns.len() ==> #[trigger] self.conns[i].peer
                != #[trigger] self.conns[j].peer
    }

    pub open spec fn has_peer(self, peer: Peer) -> bool {
        exists|i: int| 0 <= i < self.conns.len() && self.conns[i].peer == peer
    }

    pub open spec fn peer_index(self, peer: Peer) -> int {
        choose|i: int| 0 <= i < self.conns.len() && self.conns[i].peer == peer
    }

    /// The account the connection is bound to.
    pub open spec fn login_of(self, peer: Peer) -> Option<u32> {
        if self.has_peer(peer) {
            self.conns[self.peer_index(peer)].logged
        } else {
            None
        }
    }

    /// A new connection, anonymous; it replaces any record at that address.
    pub open spec fn connect(self, peer: Peer) -> RegistryView {
        let record = Connection { peer, logged: None };
        if self.has_peer(peer) {
            RegistryView { conns: self.conns.update(self.peer_index(peer), record), ..self }
        } else {
            RegistryView { conns: self.conns.push(record), ..self }
        }
    }

    /// The connection's record is dropped, if there is one.
    pub open spec fn disconnect(self, peer: Peer) -> RegistryView {
        if self.has_peer(peer) {
            RegistryView { conns: self.conns.remove(self.peer_index(peer)), ..self }
        } else {
            self
        }
    }

    /// A sign-up: the next id for an unused credential pair. The connection
    /// stays as it was. When every id is in use the request is refused
    /// with `Closed`.
    pub open spec fn sign_up(self, peer: Peer, name: Seq<char>, pass: Seq<char>) -> (
        RegistryView,
        Seq<DeliveryView>,
    ) {
        if find_account(self.accounts, name, pass) is Some {
            (
                self,
                seq![reply(peer, ServerMessageView::LoggedIn(Err(LoginError::NameAlreadyExists)))],
            )
        } else if accounts_full(self.accounts) {
            (self, seq![reply(peer, ServerMessageView::Closed)])
        } else {
            let id = self.accounts.len() as u32;
            let account = AccountView { id, name, pass, avatar: None };
            (
                RegistryView { accounts: self.accounts.push(account), ..self },
                seq![reply(peer, ServerMessageView::LoggedIn(Ok(id)))],
            )
        }
    }

    /// The channel with its history.
    pub open spec fn channel_view(self, c: ChannelInfoView) -> ChannelView {
        ChannelView {
            id: c.id,
            name: c.name,
            icon: c.icon,
            history: channel_history(self.history, c.id),
        }
    }

    /// What a connection is sent after logging in: every account, then every
    /// channel with its history.
    pub open spec fn directory(self, peer: Peer) -> Seq<DeliveryView> {
        self.accounts.map_values(|a: AccountView| reply(peer, ServerMessageView::User(profile(a))))
            + self.channels.map_values(
            |c: ChannelInfoView| reply(peer, ServerMessageView::Channel(self.channel_view(c))),
        )
    }

    /// A login: the connection is bound to the account with this credential
    /// pair, unless there is none or the connection is bound already.
    pub open spec fn log_in(self, peer: Peer, name: Seq<char>, pass: Seq<char>) -> (
        RegistryView,
        Seq<DeliveryView>,
    ) {
        match find_account(self.accounts, name, pass) {
            None => (
                self,
                seq![reply(peer, ServerMessageView::LoggedIn(Err(LoginError::WrongNameOrPass)))],
            ),
            Some(id) => if self.login_of(peer) is Some {
                (
                    self,
                    seq![reply(peer, ServerMessageView::LoggedIn(Err(LoginError::AlreadyLogged)))],
                )
            } else {
                let record = Connection { peer, logged: Some(id) };
                (
                    RegistryView { conns: self.conns.update(self.peer_index(peer), record), ..self },
                    seq![reply(peer, ServerMessageView::LoggedIn(Ok(id)))] + self.directory(peer),
                )
            },
        }
    }

    /// The same message to every live connection, once each.
    pub open spec fn broadcast(self, message: ServerMessageView) -> Seq<DeliveryView> {
        self.conns.map_values(|c: Connection| reply(c.peer, message))
    }

    /// A post from the connection: appended to the history and broadcast if
    /// the connection is bound, refused with `Closed` if not.
    pub open spec fn publish(self, peer: Peer, chan: u32, content: ContentView) -> (
        RegistryView,
        Seq<DeliveryView>,
    ) {
        match self.login_of(peer) {
            None => (self, seq![reply(peer, ServerMessageView::Closed)]),
            Some(from) => {
                let m = MessageView { from, chan, content };
                (
                    RegistryView { history: self.history.push(m), ..self },
                    self.broadcast(ServerMessageView::Message(m)),
                )
            },
        }
    }

    /// A frame received from the connection.
    pub open spec fn receive(self, peer: Peer, bytes: Seq<u8>) -> (RegistryView, ReactionView) {
        match parse_client(bytes) {
            None => (self, ReactionView::Send(seq![reply(peer, ServerMessageView::Closed)])),
            Some((request, _)) => match request {
                ClientMessageView::SignUp { name, pass } => {
                    let (next, out) = self.sign_up(peer, name, pass);
                    (next, ReactionView::Send(out))
                },
                ClientMessageView::Login { name, pass } => {
                    let (next, out) = self.log_in(peer, name, pass);
                    (next, ReactionView::Send(out))
                },
                ClientMessageView::Say { chan, text } => {
                    let (next, out) = self.publish(peer, chan, ContentView::Text(text));
                    (next, ReactionView::Send(out))
                },
                ClientMessageView::File { chan, ext, bytes } => if self.login_of(peer) is Some {
                    (self, ReactionView::Store(UploadView { chan, ext, bytes }))
                } else {
                    (self, ReactionView::Send(seq![reply(peer, ServerMessageView::Closed)]))
                },
            },
        }
    }
}

pub struct Registry {
    users: Users,
    channels: Channels,
    history: Vec<Message>,
    conns: Vec<Connection>,
}

impl View for Registry {
    type V = RegistryView;

    closed spec fn view(&self) -> RegistryView {
        RegistryView {
            accounts: self.users@,
            channels: self.channels@,
            history: messages_view(self.history@),
            conns: self.conns@,
        }
    }
}

fn closed_reply(peer: Peer) -> (r: Vec<Delivery>)
    ensures
        deliveries_view(r@) == seq![reply(peer, ServerMessageView::Closed)],
{
    let r = vec![Delivery { to: peer, message: ServerMessage::Closed }];
    assert(deliveries_view(r@) =~= seq![reply(peer, ServerMessageView::Closed)]);
    r
}

fn login_reply(peer: Peer, result: Result<u32, LoginError>) -> (r: Vec<Delivery>)
    ensures
        deliveries_view(r@) == seq![reply(peer, ServerMessageView::LoggedIn(result))],
{
    let r = vec![Delivery { to: peer, message: ServerMessage::LoggedIn(result) }];
    assert(deliveries_view(r@) =~= seq![reply(peer, ServerMessageView::LoggedIn(result))]);
    r
}

impl Registry {
    pub open spec fn wf(&self) -> bool {
        self@.wf()
    }

    /// No accounts, no history and no connections; the fixed channels.
    pub fn new() -> (r: Registry)
        ensures
            r.wf(),
            r@.accounts == Seq::<AccountView>::empty(),
            r@.history == Seq::<MessageView>::empty(),
            r@.conns == Seq::<Connection>::empty(),
            r@.channels == service_channels(),
    {
        let r = Registry {
            users: Users::new(),
            channels: Channels::new(),
            history: Vec::new(),
            conns: Vec::new(),
        };
        assert(r@.history =~= Seq::<MessageView>::empty());
        r
    }

    fn find(&self, peer: Peer) -> (r: Option<usize>)
        requires
            self.wf(),
        ensures
            r is None <==> !self@.has_peer(peer),
            r matches Some(i) ==> i == self@.peer_index(peer) && i < self@.conns.len(),
    {
        let mut i: usize = 0;
        while i < self.conns.len()
            invariant
                i <= self@.conns.len(),
                self.wf(),
                forall|j: int| 0 <= j < i ==> (#[trigger] self@.conns[j]).peer != peer,
            decreases self@.conns.len() - i,
        {
            if self.conns[i].peer == peer {
                proof {
                    assert(self@.conns[i as int].peer == peer);
                    let k = self@.peer_index(peer);
                    assert(self@.conns[k].peer == peer);
                    if k < i {
                        assert(self@.conns[k].peer != peer);
                    } else if k > i {
                        assert(self@.conns[i as int].peer != self@.conns[k].peer);
                    }
                }
                return Some(i);
            }
            i = i + 1;
        }
        None
    }

    /// Whether a connection at this address is registered.
    pub fn is_connected(&self, peer: Peer) -> (r: bool)
        requires
            self.wf(),
        ensures
            r == self@.has_peer(peer),
    {
        self.find(peer).is_some()
    }

    /// The account the connection is bound to.
    pub fn login_of(&self, peer: Peer) -> (r: Option<u32>)
        requires
            self.wf(),
        ensures
            r == self@.login_of(peer),
    {
        match self.find(peer) {
            Some(i) => self.conns[i].logged,
            None => None,
        }
    }

    /// A connection was opened at this address.
    pub fn connect(&mut self, peer: Peer)
        requires
            old(self).wf(),
        ensures
            final(self).wf(),
            final(self)@ == old(self)@.connect(peer),
            final(self)@.has_peer(peer),
            final(self)@.login_of(peer) is None,
    {
        let record = Connection { peer, logged: None };
        let ghost at: int;
        match self.find(peer) {
            Some(i) => {
                self.conns.set(i, record);
                proof {
                    at = i as int;
                }
            },
            None => {
                self.conns.push(record);
                proof {
                    at = self@.conns.len() - 1;
                }
            },
        }
        proof {
            assert(self@.conns =~= old(self)@.connect(peer).conns);
            assert(self@.conns[at].peer == peer);
            lemma_peer_index_unique(self@, peer, at);
        }
    }

    /// The connection at this address was closed; a second close, or a close
    /// for an address never seen, changes nothing.
    pub fn disconnect(&mut self, peer: Peer)
        requires
            old(self).wf(),
        ensures
            final(self).wf(),
            final(self)@ == old(self)@.disconnect(peer),
    {
        match self.find(peer) {
            Some(i) => {
                let ghost before = self@.conns;
                self.conns.remove(i);
                proof {
                    assert forall|a: int, b: int|
                        0 <= a < b < self@.conns.len() implies #[trigger] self@.conns[a].peer
                        != #[trigger] self@.conns[b].peer by {
                        let a0 = if a < i {
                            a
                        } else {
                            a + 1
                        };
                        let b0 = if b < i {
                            b
                        } else {
                            b + 1
                        };
                        assert(self@.conns[a] == before[a0]);
                        assert(self@.conns[b] == before[b0]);
                    }
                }
            },
            None => {},
        }
        proof {
            assert(self@.conns =~= old(self)@.disconnect(peer).conns);
        }
    }

    fn sign_up(&mut self, peer: Peer, name: &str, pass: &str) -> (r: Vec<Delivery>)
        requires
            old(self).wf(),
        ensures
            final(self).wf(),
            (final(self)@, deliveries_view(r@)) == old(self)@.sign_up(peer, name@, pass@),
    {
        if self.users.get(name, pass).is_some() {
            return login_reply(peer, Err(LoginError::NameAlreadyExists));
        }
        if self.users.len() > u32::MAX as usize {
            return closed_reply(peer);
        }
        let created = self.users.push_new(name, pass, None);
        match created {
            Some(id) => login_reply(peer, Ok(id)),
            None => closed_reply(peer),
        }
    }

    /// The messages of channel `id`, in arrival order.
    fn channel_history(&self, id: u32) -> (r: Vec<Message>)
        ensures
            messages_view(r@) == channel_history(self@.history, id),
    {
        let mut out: Vec<Message> = Vec::new();
        let mut i: usize = 0;
        while i < self.history.len()
            invariant
                i <= self.history@.len(),
                messages_view(out@) == channel_history(
                    messages_view(self.history@.subrange(0, i as int)),
                    id,
                ),
            decreases self.history@.len() - i,
        {
            let m = &self.history[i];
            let ghost prefix = messages_view(self.history@.subrange(0, i as int));
            let ghost next = messages_view(self.history@.subrange(0, i + 1));
            proof {
                assert(next.drop_last() =~= prefix);
                assert(next.last() == m@);
                reveal_with_fuel(Seq::filter, 1);
            }
            if m.chan == id {
                let ghost before = out@;
                out.push(m.duplicate());
                proof {
                    assert(messages_view(out@) =~= messages_view(before).push(m@));
                }
            }
            i = i + 1;
        }
        proof {
            assert(self.history@.subrange(0, self.history@.len() as int) =~= self.history@);
        }
        out
    }

    /// Appends the directory sent after a login.
    fn push_directory(&self, peer: Peer, out: &mut Vec<Delivery>)
        requires
            self.wf(),
        ensures
            deliveries_view(final(out)@) == deliveries_view(old(out)@) + self@.directory(peer),
    {
        let ghost start = deliveries_view(out@);
        let ghost users_part = self@.accounts.map_values(
            |a: AccountView| reply(peer, ServerMessageView::User(profile(a))),
        );
        let ghost channels_part = self@.channels.map_values(
            |c: ChannelInfoView| reply(peer, ServerMessageView::Channel(self@.channel_view(c))),
        );
        let n = self.users.len();
        let mut i: usize = 0;
        while i < n
            invariant
                n == self@.accounts.len(),
                i <= n,
                self.wf(),
                users_part == self@.accounts.map_values(
                    |a: AccountView| reply(peer, ServerMessageView::User(profile(a))),
                ),
                deliveries_view(out@) == start + users_part.subrange(0, i as int),
            decreases n - i,
        {
            let ghost before = out@;
            match self.users.get_by_id(i as u32) {
                Some(a) => {
                    let user = crate::api::User {
                        id: a.id,
                        name: a.name.clone(),
                        avatar: copy_opt(&a.avatar),
                    };
                    out.push(Delivery { to: peer, message: ServerMessage::User(user) });
                    proof {
                        assert(deliveries_view(out@) =~= deliveries_view(before).push(
                            users_part[i as int],
                        ));
                        assert(users_part.subrange(0, i + 1) =~= users_part.subrange(
                            0,
                            i as int,
                        ).push(users_part[i as int]));
                    }
                },
                None => {},
            }
            i = i + 1;
        }
        let ghost middle = deliveries_view(out@);
        let m = self.channels.len();
        let mut j: usize = 0;
        while j < m
            invariant
                m == self@.channels.len(),
                j <= m,
                self.wf(),
                channels_part == self@.channels.map_values(
                    |c: ChannelInfoView| reply(peer, ServerMessageView::Channel(self@.channel_view(c))),
                ),
                deliveries_view(out@) == middle + channels_part.subrange(0, j as int),
            decreases m - j,
        {
            let ghost before = out@;
            let c = self.channels.get(j);
            let history = self.channel_history(c.id);
            let channel = Channel { id: c.id, name: c.name.clone(), icon: copy_opt(&c.icon), history };
            out.push(Delivery { to: peer, message: ServerMessage::Channel(channel) });
            proof {
                assert(deliveries_view(out@) =~= deliveries_view(before).push(
                    channels_part[j as int],
                ));
                assert(channels_part.subrange(0, j + 1) =~= channels_part.subrange(
                    0,
                    j as int,
                ).push(channels_part[j as int]));
            }
            j = j + 1;
        }
        proof {
            assert(users_part.subrange(0, n as int) =~= users_part);
            assert(channels_part.subrange(0, m as int) =~= channels_part);
            assert(deliveries_view(out@) =~= start + self@.directory(peer));
        }
    }

    fn log_in(&mut self, peer: Peer, name: &str, pass: &str) -> (r: Vec<Delivery>)
        requires
            old(self).wf(),
            old(self)@.has_peer(peer),
        ensures
            final(self).wf(),
            (final(self)@, deliveries_view(r@)) == old(self)@.log_in(peer, name@, pass@),
    {
        let id = match self.users.get(name, pass) {
            Some(id) => id,
            None => return login_reply(peer, Err(LoginError::WrongNameOrPass)),
        };
        let i = match self.find(peer) {
            Some(i) => i,
            None => return closed_reply(peer),
        };
        if self.conns[i].logged.is_some() {
            return login_reply(peer, Err(LoginError::AlreadyLogged));
        }
        let mut out = login_reply(peer, Ok(id));
        self.push_directory(peer, &mut out);
        self.conns.set(i, Connection { peer, logged: Some(id) });
        proof {
            assert(self@.conns =~= old(self)@.log_in(peer, name@, pass@).0.conns);
        }
        out
    }

    /// The same message to every live connection.
    fn broadcast(&self, m: &Message) -> (r: Vec<Delivery>)
        ensures
            deliveries_view(r@) == self@.broadcast(ServerMessageView::Message(m@)),
    {
        let ghost all = self@.broadcast(ServerMessageView::Message(m@));
        let mut out: Vec<Delivery> = Vec::new();
        let mut i: usize = 0;
        while i < self.conns.len()
            invariant
                i <= self@.conns.len(),
                all == self@.broadcast(ServerMessageView::Message(m@)),
                deliveries_view(out@) == all.subrange(0, i as int),
            decreases self@.conns.len() - i,
        {
            let ghost before = out@;
            out.push(Delivery { to: self.conns[i].peer, message: ServerMessage::Message(m.duplicate()) });
            proof {
                assert(deliveries_view(out@) =~= deliveries_view(before).push(all[i as int]));
                assert(all.subrange(0, i + 1) =~= all.subrange(0, i as int).push(all[i as int]));
            }
            i = i + 1;
        }
        proof {
            assert(all.subrange(0, all.len() as int) =~= all);
        }
        out
    }

    fn publish(&mut self, peer: Peer, chan: u32, content: MessageType) -> (r: Vec<Delivery>)
        requires
            old(self).wf(),
        ensures
            final(self).wf(),
            (final(self)@, deliveries_view(r@)) == old(self)@.publish(peer, chan, content@),
    {
        match self.login_of(peer) {
            None => closed_reply(peer),
            Some(from) => {
                let m = Message { from, chan, content };
                let out = self.broadcast(&m);
                let ghost before = self.history@;
                self.history.push(m);
                proof {
                    assert(messages_view(self.history@) =~= messages_view(before).push(m@));
                }
                out
            },
        }
    }

    /// A frame received from the connection at `peer`.
    pub fn receive(&mut self, peer: Peer, bytes: &[u8]) -> (r: Reaction)
        requires
            old(self).wf(),
            old(self)@.has_peer(peer),
        ensures
            final(self).wf(),
            (final(self)@, r@) == old(self)@.receive(peer, bytes@),
    {
        match decode_client(bytes) {
            Err(_) => Reaction::Send(closed_reply(peer)),
            Ok(ClientMessage::SignUp { name, pass }) => Reaction::Send(
                self.sign_up(peer, name.as_str(), pass.as_str()),
            ),
            Ok(ClientMessage::Login { name, pass }) => Reaction::Send(
                self.log_in(peer, name.as_str(), pass.as_str()),
            ),
            Ok(ClientMessage::Say { chan, text }) => Reaction::Send(
                self.publish(peer, chan, MessageType::Text(text)),
            ),
            Ok(ClientMessage::File { chan, ext, bytes }) => {
                if self.login_of(peer).is_some() {
                    Reaction::Store(Upload { chan, ext, bytes })
                } else {
                    Reaction::Send(closed_reply(peer))
                }
            },
        }
    }

    /// The blob store answered `reference` for a file that the connection at
    /// `peer` sent to channel `chan`: it is posted like a text.
    pub fn attach_file(&mut self, peer: Peer, chan: u32, reference: String) -> (r: Vec<Delivery>)
        requires
            old(self).wf(),
        ensures
            final(self).wf(),
            (final(self)@, deliveries_view(r@)) == old(self)@.publish(
                peer,
                chan,
                ContentView::File(reference@),
            ),
    {
        self.publish(peer, chan, MessageType::File(reference))
    }
}


// ---------------------------------------------------------------------------
// Laws of the registry.
// ---------------------------------------------------------------------------

proof fn lemma_channel_history_push(h: Seq<MessageView>, m: MessageView, id: u32)
    ensures
        channel_history(h.push(m), id) == if m.chan == id {
            channel_history(h, id).push(m)
        } else {
            channel_history(h, id)
        },
{
    reveal_with_fuel(Seq::filter, 1);
    assert(h.push(m).drop_last() =~= h);
}

proof fn lemma_channel_history_only(h: Seq<MessageView>, id: u32)
    ensures
        forall|k: int|
            0 <= k < channel_history(h, id).len() ==> #[trigger] channel_history(h, id)[k].chan
                == id,
    decreases h.len(),
{
    if h.len() > 0 {
        lemma_channel_history_only(h.drop_last(), id);
        lemma_channel_history_push(h.drop_last(), h.last(), id);
        assert(h.drop_last().push(h.last()) =~= h);
    } else {
        reveal_with_fuel(Seq::filter, 1);
    }
}

proof fn lemma_sign_up_fresh(v: RegistryView, peer: Peer, name: Seq<char>, pass: Seq<char>)
    requires
        v.wf(),
        find_account(v.accounts, name, pass) is None,
        !accounts_full(v.accounts),
    ensures
        v.sign_up(peer, name, pass).0.wf(),
        v.sign_up(peer, name, pass).0.accounts.len() == v.accounts.len() + 1,
        v.sign_up(peer, name, pass).0.conns == v.conns,
        find_account(v.sign_up(peer, name, pass).0.accounts, name, pass) is Some,
        forall|n: Seq<char>, p: Seq<char>|
            !(n == name && p == pass) && find_account(v.accounts, n, p) is None
                ==> #[trigger] find_account(v.sign_up(peer, name, pass).0.accounts, n, p) is None,
{
    let next = v.sign_up(peer, name, pass).0.accounts;
    let k = v.accounts.len() as int;
    assert(next[k].name == name && next[k].pass == pass);
    assert forall|i: int, j: int| 0 <= i < j < next.len() implies !crate::users::has_credentials(
        #[trigger] next[i],
        next[j].name,
        #[trigger] next[j].pass,
    ) by {
        if j == k {
            assert(next[i] == v.accounts[i]);
        }
    }
    assert forall|n: Seq<char>, p: Seq<char>|
        !(n == name && p == pass) && find_account(v.accounts, n, p) is None
            implies #[trigger] find_account(next, n, p) is None by {
        assert forall|i: int| 0 <= i < next.len() implies !crate::users::has_credentials(
            next[i],
            n,
            p,
        ) by {
            if i < k {
                assert(next[i] == v.accounts[i]);
            }
        }
    }
}

/// Two sign-ups with different credential pairs that are not in use get
/// two different ids, the second one more than the first; signing up again
/// with the first pair is refused with `NameAlreadyExists` and changes
/// nothing.
pub proof fn lemma_sign_up_ids(
    v: RegistryView,
    peer: Peer,
    name1: Seq<char>,
    pass1: Seq<char>,
    name2: Seq<char>,
    pass2: Seq<char>,
)
    requires
        v.wf(),
        find_account(v.accounts, name1, pass1) is None,
        find_account(v.accounts, name2, pass2) is None,
        !(name1 == name2 && pass1 == pass2),
        v.accounts.len() + 2 <= u32::MAX + 1,
    ensures
        ({
            let (v1, out1) = v.sign_up(peer, name1, pass1);
            let (v2, out2) = v1.sign_up(peer, name2, pass2);
            let (v3, out3) = v2.sign_up(peer, name1, pass1);
            &&& exists|id1: u32, id2: u32|
                id1 < id2 && out1 == seq![reply(peer, ServerMessageView::LoggedIn(Ok(id1)))]
                    && out2 == seq![reply(peer, ServerMessageView::LoggedIn(Ok(id2)))]
            &&& out3 == seq![
                reply(peer, ServerMessageView::LoggedIn(Err(LoginError::NameAlreadyExists))),
            ]
            &&& v3 == v2
        }),
{
    let (v1, out1) = v.sign_up(peer, name1, pass1);
    lemma_sign_up_fresh(v, peer, name1, pass1);
    assert(find_account(v1.accounts, name2, pass2) is None);
    let (v2, out2) = v1.sign_up(peer, name2, pass2);
    lemma_sign_up_fresh(v1, peer, name2, pass2);
    let k = v.accounts.len() as int;
    assert(v2.accounts[k] == v1.accounts[k]);
    assert(crate::users::has_credentials(v2.accounts[k], name1, pass1));
    assert(find_account(v2.accounts, name1, pass1) is Some);
    let id1 = v.accounts.len() as u32;
    let id2 = (v.accounts.len() + 1) as u32;
    assert(out1 == seq![reply(peer, ServerMessageView::LoggedIn(Ok(id1)))]);
    assert(out2 == seq![reply(peer, ServerMessageView::LoggedIn(Ok(id2)))]);
}

/// A login with a credential pair that no account has is refused with
/// `WrongNameOrPass` and changes nothing.
pub proof fn lemma_login_unknown(v: RegistryView, peer: Peer, name: Seq<char>, pass: Seq<char>)
    requires
        find_account(v.accounts, name, pass) is None,
    ensures
        v.log_in(peer, name, pass) == (
            v,
            seq![reply(peer, ServerMessageView::LoggedIn(Err(LoginError::WrongNameOrPass)))],
        ),
{
}

proof fn lemma_peer_index_unique(v: RegistryView, peer: Peer, i: int)
    requires
        v.wf(),
        0 <= i < v.conns.len(),
        v.conns[i].peer == peer,
    ensures
        v.has_peer(peer),
        v.peer_index(peer) == i,
{
    let k = v.peer_index(peer);
    if k != i {
        if k < i {
            assert(v.conns[k].peer != v.conns[i].peer);
        } else {
            assert(v.conns[i].peer != v.conns[k].peer);
        }
    }
}

/// After a successful login, a second login on the same connection with the
/// credential pair of any account is refused with `AlreadyLogged`, and the
/// connection stays bound to the first account.
pub proof fn lemma_login_twice(
    v: RegistryView,
    peer: Peer,
    name: Seq<char>,
    pass: Seq<char>,
    name2: Seq<char>,
    pass2: Seq<char>,
)
    requires
        v.wf(),
        v.has_peer(peer),
        v.login_of(peer) is None,
        find_account(v.accounts, name, pass) is Some,
        find_account(v.accounts, name2, pass2) is Some,
    ensures
        ({
            let (v1, out1) = v.log_in(peer, name, pass);
            let (v2, out2) = v1.log_in(peer, name2, pass2);
            &&& out1[0] == reply(
                peer,
                ServerMessageView::LoggedIn(Ok(find_account(v.accounts, name, pass)->0)),
            )
            &&& v1.login_of(peer) == Some(find_account(v.accounts, name, pass)->0)
            &&& out2 == seq![
                reply(peer, ServerMessageView::LoggedIn(Err(LoginError::AlreadyLogged))),
            ]
            &&& v2 == v1
            &&& v2.login_of(peer) == Some(find_account(v.accounts, name, pass)->0)
        }),
{
    let id = find_account(v.accounts, name, pass)->0;
    let (v1, out1) = v.log_in(peer, name, pass);
    let i = v.peer_index(peer);
    assert(v1.conns[i].peer == peer);
    assert forall|a: int, b: int| 0 <= a < b < v1.conns.len() implies #[trigger] v1.conns[a].peer
        != #[trigger] v1.conns[b].peer by {
        assert(v1.conns[a].peer == v.conns[a].peer);
        assert(v1.conns[b].peer == v.conns[b].peer);
    }
    lemma_peer_index_unique(v1, peer, i);
    assert(out1[0] == reply(peer, ServerMessageView::LoggedIn(Ok(id))));
}

/// After a successful login the connection, and no other, is sent one
/// `User` message for each account in id order, then one `Channel` message
/// for each channel, whose history holds only messages posted to it.
pub proof fn lemma_login_directory(v: RegistryView, peer: Peer, name: Seq<char>, pass: Seq<char>)
    requires
        v.wf(),
        v.has_peer(peer),
        v.login_of(peer) is None,
        find_account(v.accounts, name, pass) is Some,
    ensures
        ({
            let out = v.log_in(peer, name, pass).1;
            let users = v.accounts.len() as int;
            &&& out.len() == 1 + users + v.channels.len()
            &&& forall|i: int| 0 <= i < out.len() ==> (#[trigger] out[i]).to == peer
            &&& forall|i: int|
                0 <= i < users ==> out[1 + i].message == ServerMessageView::User(
                    profile(#[trigger] v.accounts[i]),
                )
            &&& forall|j: int|
                0 <= j < v.channels.len() ==> ((#[trigger] out[1 + users + j]).message
                    matches ServerMessageView::Channel(c) && c.id == v.channels[j].id && c.history
                    == channel_history(v.history, c.id) && forall|k: int|
                    0 <= k < c.history.len() ==> #[trigger] c.history[k].chan == c.id)
        }),
{
    let out = v.log_in(peer, name, pass).1;
    let users = v.accounts.len() as int;
    let dir = v.directory(peer);
    assert(out == seq![reply(peer, ServerMessageView::LoggedIn(Ok(find_account(v.accounts, name, pass)->0)))] + dir);
    assert forall|i: int| 0 <= i < out.len() implies (#[trigger] out[i]).to == peer by {
        if i > 0 {
            assert(out[i] == dir[i - 1]);
        }
    }
    assert forall|i: int| 0 <= i < users implies out[1 + i].message == ServerMessageView::User(
        profile(#[trigger] v.accounts[i]),
    ) by {
        assert(out[1 + i] == dir[i]);
    }
    assert forall|j: int| 0 <= j < v.channels.len() implies ((#[trigger] out[1 + users
        + j]).message matches ServerMessageView::Channel(c) && c.id == v.channels[j].id
        && c.history == channel_history(v.history, c.id) && forall|k: int|
        0 <= k < c.history.len() ==> #[trigger] c.history[k].chan == c.id) by {
        assert(out[1 + users + j] == dir[users + j]);
        lemma_channel_history_only(v.history, v.channels[j].id);
    }
}

proof fn lemma_say_frame(v: RegistryView, peer: Peer, chan: u32, text: Seq<char>)
    requires
        client_fits(ClientMessageView::Say { chan, text }),
    ensures
        ({
            let (next, out) = v.publish(peer, chan, ContentView::Text(text));
            v.receive(peer, enc_client(ClientMessageView::Say { chan, text })) == (
                next,
                ReactionView::Send(out),
            )
        }),
{
    let m = ClientMessageView::Say { chan, text };
    lemma_client_round_trip(m, Seq::empty());
    assert(enc_client(m) + Seq::<u8>::empty() =~= enc_client(m));
}

/// A `Say` frame from a connection that is not logged in is refused with
/// `Closed` to that connection alone, and nothing is added to any history;
/// the same holds of any post.
pub proof fn lemma_anonymous_post(v: RegistryView, peer: Peer, chan: u32, text: Seq<char>)
    requires
        v.login_of(peer) is None,
        client_fits(ClientMessageView::Say { chan, text }),
    ensures
        v.receive(peer, enc_client(ClientMessageView::Say { chan, text })) == (
            v,
            ReactionView::Send(seq![reply(peer, ServerMessageView::Closed)]),
        ),
        forall|content: ContentView|
            #[trigger] v.publish(peer, chan, content) == (
                v,
                seq![reply(peer, ServerMessageView::Closed)],
            ),
{
    lemma_say_frame(v, peer, chan, text);
}

/// A `Say` frame from a logged-in connection is appended to its channel's
/// history and delivered to every live connection, the sender included,
/// exactly once.
pub proof fn lemma_post_delivered(v: RegistryView, peer: Peer, chan: u32, text: Seq<char>)
    requires
        v.wf(),
        v.has_peer(peer),
        v.login_of(peer) is Some,
        client_fits(ClientMessageView::Say { chan, text }),
    ensures
        ({
            let (v1, out) = v.publish(peer, chan, ContentView::Text(text));
            let m = MessageView { from: v.login_of(peer)->0, chan, content: ContentView::Text(text) };
            &&& v.receive(peer, enc_client(ClientMessageView::Say { chan, text })) == (
                v1,
                ReactionView::Send(out),
            )
            &&& channel_history(v1.history, chan) == channel_history(v.history, chan).push(m)
            &&& v1.conns == v.conns
            &&& out.len() == v.conns.len()
            &&& forall|i: int|
                0 <= i < out.len() ==> #[trigger] out[i] == reply(
                    v.conns[i].peer,
                    ServerMessageView::Message(m),
                )
            &&& forall|i: int, j: int|
                0 <= i < j < out.len() ==> #[trigger] out[i].to != #[trigger] out[j].to
            &&& exists|i: int| 0 <= i < out.len() && out[i].to == peer
        }),
{
    let m = MessageView { from: v.login_of(peer)->0, chan, content: ContentView::Text(text) };
    let (v1, out) = v.publish(peer, chan, ContentView::Text(text));
    lemma_say_frame(v, peer, chan, text);
    lemma_channel_history_push(v.history, m, chan);
    let i = v.peer_index(peer);
    assert(out[i].to == peer);
}

/// Closing an address that has no live connection changes nothing; so
/// closing twice is the same as closing once.
pub proof fn lemma_close_idempotent(v: RegistryView, peer: Peer)
    requires
        v.wf(),
    ensures
        !v.has_peer(peer) ==> v.disconnect(peer) == v,
        v.disconnect(peer).disconnect(peer) == v.disconnect(peer),
{
    if v.has_peer(peer) {
        let i = v.peer_index(peer);
        let w = v.disconnect(peer);
        assert forall|k: int| 0 <= k < w.conns.len() implies w.conns[k].peer != peer by {
            if k < i {
                assert(w.conns[k] == v.conns[k]);
                assert(v.conns[k].peer != v.conns[i].peer);
            } else {
                assert(w.conns[k] == v.conns[k + 1]);
                assert(v.conns[i].peer != v.conns[k + 1].peer);
            }
        }
    }
}
} // verus!
