//! The game client's side of the session: what it keeps of the world and of
//! its session with the server, what it answers to each message of the
//! server, and what it queues to send.

use std::collections::VecDeque;
use vstd::prelude::*;
use crate::keymap::KeyMap;
use crate::protocol::{tcp, udp, PlayerId, PositionBits, Token};

verus! {

/// A message that reaches the client from the server.
#[derive(Clone, Copy, Debug, PartialEq, Eq)]
pub enum ServerMessage {
    Tcp(tcp::ServerToClient),
    Udp(udp::ServerToClient),
}

/// A message that the client sends to the server.
#[derive(Clone, Copy, Debug, PartialEq, Eq)]
pub enum ClientMessage {
    Tcp(tcp::ClientToServer),
    Udp(udp::ClientToServer),
}

/// What the client knows of its session: the token that the server gave
/// it, the messages waiting to be sent, whether the server has confirmed
/// the token, and where the other players stand.
pub struct Network {
    token: Option<Token>,
    queue: VecDeque<ClientMessage>,
    ready: bool,
    players: KeyMap<PlayerId, PositionBits>,
}

/// The model of a [`Network`].
pub struct NetworkView {
    pub token: Option<Token>,
    pub queue: Seq<ClientMessage>,
    pub ready: bool,
    pub players: Map<PlayerId, PositionBits>,
}

impl View for Network {
    type V = NetworkView;

    closed spec fn view(&self) -> NetworkView {
        NetworkView { token: self.token, queue: self.queue@, ready: self.ready, players: self.players@ }
    }
}

/// The session after the client has taken in `message`.
pub open spec fn received(v: NetworkView, message: ServerMessage) -> NetworkView {
    match message {
        ServerMessage::Tcp(m) => match m {
            tcp::ServerToClient::Handshake { token } => NetworkView {
                token: Some(token),
                queue: v.queue.push(ClientMessage::Udp(udp::ClientToServer::TokenConfirmation { token })),
                ..v
            },
            tcp::ServerToClient::PlayerExists { id, position } => NetworkView {
                players: v.players.insert(id, position),
                ..v
            },
            tcp::ServerToClient::PlayerJoined { id } => NetworkView {
                players: v.players.insert(id, PositionBits([0u32, 0u32])),
                ..v
            },
            tcp::ServerToClient::PlayerLeft { id } => NetworkView { players: v.players.remove(id), ..v },
        },
        ServerMessage::Udp(m) => match m {
            udp::ServerToClient::TokenConfirmed => NetworkView { ready: true, ..v },
            udp::ServerToClient::TokenChallenge { nonce } => match v.token {
                Some(token) => NetworkView {
                    queue: v.queue.push(ClientMessage::Udp(udp::ClientToServer::TokenChallenge { token, nonce })),
                    ..v
                },
                None => v,
            },
            udp::ServerToClient::PlayerPosition { id, position } => if v.players.contains_key(id) {
                NetworkView { players: v.players.insert(id, position), ..v }
            } else {
                v
            },
        },
    }
}

impl Network {
    /// The table of players is well formed.
    pub closed spec fn wf(&self) -> bool {
        self.players.wf()
    }

    /// A session that has not begun: no token, nothing queued, not
    /// confirmed, no other player known.
    pub fn new() -> (n: Network)
        ensures
            n.wf(),
            n@.token is None,
            n@.queue == Seq::<ClientMessage>::empty(),
            !n@.ready,
            n@.players == Map::<PlayerId, PositionBits>::empty(),
    {
        Network { token: None, queue: VecDeque::with_capacity(32), ready: false, players: KeyMap::new() }
    }

    /// Queues the opening request of a session, a handshake over TCP.
    pub fn start(&mut self)
        requires
            old(self).wf(),
        ensures
            final(self).wf(),
            final(self)@ == (NetworkView {
                queue: old(self)@.queue.push(ClientMessage::Tcp(tcp::ClientToServer::LetsShakeHands)),
                ..old(self)@
            }),
    {
        self.queue.push_back(ClientMessage::Tcp(tcp::ClientToServer::LetsShakeHands));
    }

    /// Takes in one message of the server: keeps the token of a handshake
    /// and confirms it over UDP, follows the players that exist, join,
    /// leave and move, marks the session ready once the token is
    /// confirmed, and answers a challenge with the token, where it has one.
    pub fn receive(&mut self, message: ServerMessage)
        requires
            old(self).wf(),
        ensures
            final(self).wf(),
            final(self)@ == received(old(self)@, message),
    {
        match message {
            ServerMessage::Tcp(m) => match m {
                tcp::ServerToClient::Handshake { token } => {
                    self.token = Some(token);
                    self.queue.push_back(ClientMessage::Udp(udp::ClientToServer::TokenConfirmation { token }));
                },
                tcp::ServerToClient::PlayerExists { id, position } => {
                    self.players.insert(id, position);
                },
                tcp::ServerToClient::PlayerJoined { id } => {
                    self.players.insert(id, PositionBits::origin());
                },
                tcp::ServerToClient::PlayerLeft { id } => {
                    let _ = self.players.remove(&id);
                },
            },
            ServerMessage::Udp(m) => match m {
                udp::ServerToClient::TokenConfirmed => {
                    self.ready = true;
                },
                udp::ServerToClient::TokenChallenge { nonce } => {
                    if let Some(token) = self.token {
                        self.queue.push_back(ClientMessage::Udp(udp::ClientToServer::TokenChallenge { token, nonce }));
                    }
                },
                udp::ServerToClient::PlayerPosition { id, position } => {
                    match self.players.get_mut(&id) {
                        Some(player) => {
                            *player = position;
                        },
                        None => {},
                    }
                },
            },
        }
        assert(self@ == received(old(self)@, message));
    }

    /// Queues `message` where the client is online and its token has been
    /// confirmed; drops it otherwise.
    pub fn enqueue(&mut self, online: bool, message: ClientMessage)
        requires
            old(self).wf(),
        ensures
            final(self).wf(),
            final(self)@ == if online && old(self)@.ready {
                NetworkView { queue: old(self)@.queue.push(message), ..old(self)@ }
            } else {
                old(self)@
            },
    {
        if online && self.ready {
            self.queue.push_back(message);
        }
    }

    /// Takes out, in the order they were queued, the messages to send, where
    /// the client is online; takes out nothing otherwise.
    pub fn take_outgoing(&mut self, online: bool) -> (r: Vec<ClientMessage>)
        requires
            old(self).wf(),
        ensures
            final(self).wf(),
            online ==> r@ == old(self)@.queue && final(self)@ == (NetworkView {
                queue: Seq::<ClientMessage>::empty(),
                ..old(self)@
            }),
            !online ==> r@ == Seq::<ClientMessage>::empty() && final(self)@ == old(self)@,
    {
        let mut out: Vec<ClientMessage> = Vec::new();
        if !online {
            return out;
        }
        let ghost queued = self.queue@;
        loop
            invariant
                self.wf(),
                self.token == old(self).token,
                self.ready == old(self).ready,
                self.players == old(self).players,
                queued == old(self)@.queue,
                out@ + self.queue@ == queued,
            ensures
                self.wf(),
                self.token == old(self).token,
                self.ready == old(self).ready,
                self.players == old(self).players,
                out@ == queued,
                self.queue@ == Seq::<ClientMessage>::empty(),
            decreases self.queue@.len(),
        {
            match self.queue.pop_front() {
                Some(message) => {
                    out.push(message);
                    assert(out@ + self.queue@ =~= queued);
                },
                None => {
                    assert(out@ =~= queued);
                    assert(self.queue@ =~= Seq::<ClientMessage>::empty());
                    break;
                },
            }
        }
        assert(self@ == (NetworkView { queue: Seq::<ClientMessage>::empty(), ..old(self)@ }));
        out
    }

    /// Whether the server has confirmed the client's token.
    pub fn is_ready(&self) -> (r: bool)
        ensures
            r == self@.ready,
    {
        self.ready
    }

    /// The token that the server gave the client, if any.
    pub fn token(&self) -> (r: Option<Token>)
        ensures
            r == self@.token,
    {
        self.token
    }

    /// The number of other players that the client knows of.
    pub fn player_count(&self) -> (n: usize)
        requires
            self.wf(),
        ensures
            n == self@.players.len(),
    {
        self.players.len()
    }

    /// Every player that the client knows of, once each, with its position.
    pub fn positions(&self) -> (r: Vec<(PlayerId, PositionBits)>)
        requires
            self.wf(),
        ensures
            r@.len() == self@.players.len(),
            r@.map_values(|e: (PlayerId, PositionBits)| e.0).no_duplicates(),
            forall|i: int| #![trigger r@[i]] 0 <= i < r@.len() ==> self@.players.contains_key(r@[i].0) && self@.players[r@[i].0] == r@[i].1,
            forall|p: PlayerId| #[trigger] self@.players.contains_key(p) ==> exists|i: int| 0 <= i < r@.len() && r@[i].0 == p,
    {
        proof { self.players.lemma_view_entries(); }
        let ghost es = self.players.entries();
        let mut r: Vec<(PlayerId, PositionBits)> = Vec::new();
        let n = self.players.len();
        let mut i: usize = 0;
        while i < n
            invariant
                n == es.len(),
                es == self.players.entries(),
                i <= n,
                crate::keymap::distinct_keys(es),
                forall|j: int| #![trigger es[j]] 0 <= j < es.len() ==> self.players@.contains_key(es[j].0) && self.players@[es[j].0] == es[j].1,
                r@.len() == i,
                forall|j: int| #![trigger r@[j]] 0 <= j < i ==> r@[j] == es[j],
            decreases n - i,
        {
            let (p, q) = self.players.pair_at(i);
            r.push((*p, *q));
            i = i + 1;
        }
        proof {
            let ids = r@.map_values(|e: (PlayerId, PositionBits)| e.0);
            assert forall|a: int, b: int| 0 <= a < ids.len() && 0 <= b < ids.len() && a != b implies ids[a] != ids[b] by {
                assert(r@[a] == es[a]);
                assert(r@[b] == es[b]);
            }
            assert forall|p: PlayerId| #[trigger] self@.players.contains_key(p) implies exists|j: int| 0 <= j < r@.len() && r@[j].0 == p by {
                let j = choose|j: int| 0 <= j < es.len() && es[j].0 == p;
                assert(r@[j] == es[j]);
            }
        }
        r
    }

    /// The position of player `id`, where the client knows of it.
    pub fn player_position(&self, id: PlayerId) -> (r: Option<PositionBits>)
        requires
            self.wf(),
        ensures
            match r {
                Some(p) => self@.players.contains_key(id) && p == self@.players[id],
                None => !self@.players.contains_key(id),
            },
    {
        match self.players.get(&id) {
            Some(p) => Some(*p),
            None => None,
        }
    }
}

/// A challenge that follows a handshake is answered with the token of that
/// handshake and the nonce of the challenge, and the session keeps that
/// token.
pub proof fn lemma_challenge_answered_with_handshake_token(v: NetworkView, token: Token, nonce: crate::protocol::Nonce)
    ensures
        ({
            let after = received(
                received(v, ServerMessage::Tcp(tcp::ServerToClient::Handshake { token })),
                ServerMessage::Udp(udp::ServerToClient::TokenChallenge { nonce }),
            );
            &&& after.token == Some(token)
            &&& after.queue.len() == v.queue.len() + 2
            &&& after.queue.last() == ClientMessage::Udp(udp::ClientToServer::TokenChallenge { token, nonce })
        }),
{
}

/// A confirmation of the token marks the session ready and changes nothing
/// else of it.
pub proof fn lemma_confirmation_marks_ready(v: NetworkView, message: ClientMessage)
    ensures
        ({
            let after = received(v, ServerMessage::Udp(udp::ServerToClient::TokenConfirmed));
            &&& after.ready
            &&& after.queue == v.queue
            &&& after.token == v.token
            &&& after.players == v.players
        }),
{
}

/// The session becomes ready only when the server confirms the token, and
/// stays ready; the token changes only with a handshake, to the handshake's
/// token; no message of the server takes anything out of the queue.
pub proof fn lemma_ready_only_on_confirmation(v: NetworkView, message: ServerMessage)
    ensures
        received(v, message).ready == (v.ready || message == ServerMessage::Udp(udp::ServerToClient::TokenConfirmed)),
        received(v, message).token == match message {
            ServerMessage::Tcp(tcp::ServerToClient::Handshake { token }) => Some(token),
            _ => v.token,
        },
        received(v, message).queue.len() >= v.queue.len(),
        received(v, message).queue.subrange(0, v.queue.len() as int) == v.queue,
{
    let after = received(v, message);
    assert(after.queue.subrange(0, v.queue.len() as int) =~= v.queue);
}

} // verus!
