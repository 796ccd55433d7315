//! The game server's session logic: handing out tokens over TCP, binding
//! UDP addresses to them, admitting players, and relaying positions.
//!
//! A client's TCP channel is of any type `C`; the logic never looks into it.
//! What the server sends is handed back as a list of (recipient, message)
//! pairs, for the caller to send.

use vstd::prelude::*;
use crate::keymap::{KeyMap, MapEntry};
use crate::protocol::{tcp, udp, Nonce, PeerAddr, PlayerId, PositionBits, Token};
use crate::random::csprng;

verus! {

/// A connected client: its TCP channel, the UDP address that it proved to
/// own, and the player that it controls.
pub struct Client<C> {
    pub tcp: C,
    pub udp: Option<PeerAddr>,
    pub player: Option<PlayerId>,
}

impl<C> Client<C> {
    /// A client that has only its TCP channel so far.
    pub fn new(tcp: C) -> (c: Client<C>)
        ensures
            c.tcp == tcp,
            c.udp is None,
            c.player is None,
    {
        Client { tcp, udp: None, player: None }
    }
}

/// The clients by token, and the tokens by UDP address.
pub struct Clients<C> {
    pub token2client: KeyMap<Token, Client<C>>,
    pub udpaddr2token: KeyMap<PeerAddr, Token>,
}

impl<C> Clients<C> {
    /// No clients.
    pub fn new() -> (cs: Clients<C>)
        ensures
            cs.token2client.wf(),
            cs.udpaddr2token.wf(),
            cs.token2client@ == Map::<Token, Client<C>>::empty(),
            cs.udpaddr2token@ == Map::<PeerAddr, Token>::empty(),
    {
        Clients { token2client: KeyMap::new(), udpaddr2token: KeyMap::new() }
    }
}

/// What the server keeps of a player.
#[derive(Clone, Copy, Debug)]
pub struct PlayerData {
    pub position: PositionBits,
}

impl PlayerData {
    /// A player at the origin.
    pub fn new() -> (p: PlayerData)
        ensures
            p.position == PositionBits([0u32, 0u32]),
    {
        PlayerData { position: PositionBits::origin() }
    }
}

/// Everything the server knows.
pub struct State<C> {
    pub clients: Clients<C>,
    pub pending_challenges: KeyMap<PeerAddr, Nonce>,
    pub players: KeyMap<PlayerId, PlayerData>,
    /// The number of the next player to be admitted; it wraps around.
    pub next_player_id: u32,
}

/// Whether `c` is known under a token other than `t`.
pub open spec fn is_other<C>(clients: Map<Token, Client<C>>, t: Token, k: Token) -> bool {
    clients.contains_key(k) && k != t
}

/// The UDP table `us` is exactly the inverse of the clients' bound
/// addresses: `us` takes `a` to `t` if and only if the client under `t` is
/// bound to `a`.
pub open spec fn addresses_inverse<C>(cs: Map<Token, Client<C>>, us: Map<PeerAddr, Token>) -> bool {
    &&& forall|a: PeerAddr| #[trigger] us.contains_key(a) ==> cs.contains_key(us[a]) && cs[us[a]].udp == Some(a)
    &&& forall|t: Token| #[trigger] cs.contains_key(t) && cs[t].udp is Some ==> us.contains_key(cs[t].udp->0) && us[cs[t].udp->0] == t
}

impl<C> State<C> {
    /// A server with no clients, challenges or players.
    pub fn new() -> (s: State<C>)
        ensures
            s.tables_wf(),
            s.consistent(),
            s.clients.token2client@ == Map::<Token, Client<C>>::empty(),
            s.clients.udpaddr2token@ == Map::<PeerAddr, Token>::empty(),
            s.pending_challenges@ == Map::<PeerAddr, Nonce>::empty(),
            s.players@ == Map::<PlayerId, PlayerData>::empty(),
            s.next_player_id == 0,
    {
        State {
            clients: Clients::new(),
            pending_challenges: KeyMap::new(),
            players: KeyMap::new(),
            next_player_id: 0,
        }
    }

    /// Each table holds every key at most once.
    pub open spec fn tables_wf(&self) -> bool {
        &&& self.clients.token2client.wf()
        &&& self.clients.udpaddr2token.wf()
        &&& self.pending_challenges.wf()
        &&& self.players.wf()
    }

    /// The clients by token.
    pub open spec fn clients_view(&self) -> Map<Token, Client<C>> {
        self.clients.token2client@
    }

    /// The tokens by UDP address.
    pub open spec fn addrs_view(&self) -> Map<PeerAddr, Token> {
        self.clients.udpaddr2token@
    }

    /// The state's invariant: the UDP table is exactly the inverse of the
    /// clients' bound addresses; a client has an address exactly when it
    /// has a player; the players are exactly the clients' players, each
    /// controlled by one client and numbered below `next_player_id`.
    pub open spec fn consistent(&self) -> bool {
        let cs = self.clients_view();
        let us = self.addrs_view();
        let ps = self.players@;
        &&& addresses_inverse(cs, us)
        &&& forall|t: Token| #[trigger] cs.contains_key(t) ==> (cs[t].udp is Some <==> cs[t].player is Some)
        &&& forall|t: Token| #[trigger] cs.contains_key(t) && cs[t].player is Some ==> ps.contains_key(cs[t].player->0) && (cs[t].player->0).0 < self.next_player_id
        &&& forall|t1: Token, t2: Token| #[trigger] cs.contains_key(t1) && #[trigger] cs.contains_key(t2) && t1 != t2 && cs[t1].player is Some ==> cs[t1].player != cs[t2].player
        &&& forall|p: PlayerId| #[trigger] ps.contains_key(p) ==> exists|t: Token| #[trigger] cs.contains_key(t) && cs[t].player == Some(p)
    }
}

/// The clients to which a list of TCP messages goes, in order.
pub open spec fn tcp_recipients(sends: Seq<(Token, tcp::ServerToClient)>) -> Seq<Token> {
    sends.map_values(|s: (Token, tcp::ServerToClient)| s.0)
}

/// What the server does after a message over TCP.
#[derive(Clone, Copy, Debug, PartialEq, Eq)]
pub enum TcpReaction {
    /// The message is dropped.
    Ignore,
    /// The connection is closed.
    Disconnect,
    /// The message is answered.
    Reply(tcp::ServerToClient),
}

/// The tokens of all clients but the one under `t`, each once.
fn tokens_except<C>(clients: &KeyMap<Token, Client<C>>, t: &Token) -> (r: Vec<Token>)
    requires
        clients.wf(),
    ensures
        r@.no_duplicates(),
        forall|k: Token| #[trigger] r@.contains(k) <==> is_other(clients@, *t, k),
{
    proof { clients.lemma_view_entries(); }
    let ghost es = clients.entries();
    let mut r: Vec<Token> = Vec::new();
    let n = clients.len();
    let mut i: usize = 0;
    while i < n
        invariant
            n == es.len(),
            es == clients.entries(),
            i <= n,
            crate::keymap::distinct_keys(es),
            r@.no_duplicates(),
            forall|k: Token| #[trigger] r@.contains(k) <==> exists|j: int| 0 <= j < i && es[j].0 == k && k != *t,
        decreases n - i,
    {
        let (k, _c) = clients.pair_at(i);
        let ghost old_r = r@;
        if !k.same(t) {
            proof {
                assert(!r@.contains(*k)) by {
                    if r@.contains(*k) {
                        let j = choose|j: int| 0 <= j < i && es[j].0 == *k && *k != *t;
                        assert(es[j].0 == es[i as int].0);
                    }
                }
            }
            r.push(*k);
        }
        i = i + 1;
        proof {
            assert forall|k2: Token| #[trigger] r@.contains(k2) <==> exists|j: int| 0 <= j < i && es[j].0 == k2 && k2 != *t by {
                if exists|j: int| 0 <= j < i && es[j].0 == k2 && k2 != *t {
                    let j = choose|j: int| 0 <= j < i && es[j].0 == k2 && k2 != *t;
                    if j == i - 1 {
                        assert(r@.last() == k2);
                    } else {
                        assert(old_r.contains(k2));
                        let m = choose|m: int| 0 <= m < old_r.len() && old_r[m] == k2;
                        assert(r@[m] == k2);
                    }
                }
                if r@.contains(k2) {
                    let m = choose|m: int| 0 <= m < r@.len() && r@[m] == k2;
                    if m < old_r.len() {
                        assert(old_r[m] == k2);
                        assert(old_r.contains(k2));
                    } else {
                        assert(es[i - 1].0 == k2);
                    }
                }
            }
        }
    }
    proof {
        assert forall|k: Token| #[trigger] r@.contains(k) <==> is_other(clients@, *t, k) by {
            if clients@.contains_key(k) {
                let j = choose|j: int| 0 <= j < es.len() && es[j].0 == k;
            }
            if r@.contains(k) {
                let j = choose|j: int| 0 <= j < n && es[j].0 == k && k != *t;
                assert(es[j] == es[j]);
            }
        }
    }
    r
}

/// The UDP addresses bound by clients other than the one under `t`.
pub open spec fn bound_by_other<C>(clients: Map<Token, Client<C>>, t: Token, a: PeerAddr) -> bool {
    exists|k: Token| #[trigger] is_other(clients, t, k) && clients[k].udp == Some(a)
}

/// No two clients are bound to the same UDP address.
pub open spec fn udp_distinct<C>(clients: Map<Token, Client<C>>) -> bool {
    forall|k1: Token, k2: Token|
        #![trigger clients[k1], clients[k2]]
        clients.contains_key(k1) && clients.contains_key(k2) && k1 != k2 && clients[k1].udp is Some
            ==> clients[k1].udp != clients[k2].udp
}

/// `addrs` is the address of each client other than the one under `t`
/// that has one, once per client: `ks` lists those clients, each once, and
/// `addrs[i]` is the address of the client `ks[i]`.
pub open spec fn one_per_other_client<C>(
    addrs: Seq<PeerAddr>,
    ks: Seq<Token>,
    clients: Map<Token, Client<C>>,
    t: Token,
) -> bool {
    &&& ks.len() == addrs.len()
    &&& ks.no_duplicates()
    &&& forall|k: Token| #[trigger] ks.contains(k) <==> (is_other(clients, t, k) && clients[k].udp is Some)
    &&& forall|i: int| #![trigger ks[i]] 0 <= i < ks.len() ==> clients[ks[i]].udp == Some(addrs[i])
}

/// The UDP addresses of all clients but the one under `t`, where they have
/// one, once per client.
fn udp_peers_except<C>(clients: &KeyMap<Token, Client<C>>, t: &Token) -> (r: Vec<PeerAddr>)
    requires
        clients.wf(),
    ensures
        exists|ks: Seq<Token>| one_per_other_client(r@, ks, clients@, *t),
        forall|a: PeerAddr| #[trigger] r@.contains(a) <==> bound_by_other(clients@, *t, a),
        udp_distinct(clients@) ==> r@.no_duplicates(),
{
    proof { clients.lemma_view_entries(); }
    let ghost es = clients.entries();
    let mut r: Vec<PeerAddr> = Vec::new();
    let ghost mut ks: Seq<Token> = Seq::empty();
    let n = clients.len();
    let mut i: usize = 0;
    while i < n
        invariant
            n == es.len(),
            es == clients.entries(),
            i <= n,
            crate::keymap::distinct_keys(es),
            forall|j: int| #![trigger es[j]] 0 <= j < es.len() ==> clients@.contains_key(es[j].0) && clients@[es[j].0] == es[j].1,
            forall|a: PeerAddr| #[trigger] r@.contains(a) <==> exists|j: int| 0 <= j < i && es[j].0 != *t && es[j].1.udp == Some(a),
            udp_distinct(clients@) ==> r@.no_duplicates(),
            ks.len() == r@.len(),
            ks.no_duplicates(),
            forall|k: Token| #[trigger] ks.contains(k) <==> exists|j: int| 0 <= j < i && es[j].0 == k && k != *t && es[j].1.udp is Some,
            forall|m: int| #![trigger ks[m]] 0 <= m < ks.len() ==> clients@.contains_key(ks[m]) && clients@[ks[m]].udp == Some(r@[m]),
        decreases n - i,
    {
        let (k, c) = clients.pair_at(i);
        let ghost old_r = r@;
        let ghost old_ks = ks;
        if !k.same(t) {
            if let Some(a) = c.udp {
                proof {
                    assert(!old_ks.contains(*k)) by {
                        if old_ks.contains(*k) {
                            let j = choose|j: int| 0 <= j < i && es[j].0 == *k && *k != *t && es[j].1.udp is Some;
                            assert(es[j].0 == es[i as int].0);
                        }
                    }
                    ks = ks.push(*k);
                    assert(clients@[es[i as int].0] == es[i as int].1);
                }
                proof {
                    if udp_distinct(clients@) {
                        assert(!old_r.contains(a)) by {
                            if old_r.contains(a) {
                                let j = choose|j: int| 0 <= j < i && es[j].0 != *t && es[j].1.udp == Some(a);
                                assert(es[j].0 != es[i as int].0);
                                assert(clients@[es[j].0] == es[j].1);
                                assert(clients@[es[i as int].0] == es[i as int].1);
                            }
                        }
                    }
                }
                r.push(a);
            }
        }
        i = i + 1;
        proof {
            assert forall|k2: Token| #[trigger] ks.contains(k2) <==> exists|j: int| 0 <= j < i && es[j].0 == k2 && k2 != *t && es[j].1.udp is Some by {
                if exists|j: int| 0 <= j < i && es[j].0 == k2 && k2 != *t && es[j].1.udp is Some {
                    let j = choose|j: int| 0 <= j < i && es[j].0 == k2 && k2 != *t && es[j].1.udp is Some;
                    if j == i - 1 {
                        assert(ks.last() == k2);
                    } else {
                        assert(old_ks.contains(k2));
                        let m = choose|m: int| 0 <= m < old_ks.len() && old_ks[m] == k2;
                        assert(ks[m] == k2);
                    }
                }
                if ks.contains(k2) {
                    let m = choose|m: int| 0 <= m < ks.len() && ks[m] == k2;
                    if m < old_ks.len() {
                        assert(old_ks[m] == k2);
                        assert(old_ks.contains(k2));
                    } else {
                        assert(es[i - 1].0 == k2);
                    }
                }
            }
            assert forall|a: PeerAddr| #[trigger] r@.contains(a) <==> exists|j: int| 0 <= j < i && es[j].0 != *t && es[j].1.udp == Some(a) by {
                if exists|j: int| 0 <= j < i && es[j].0 != *t && es[j].1.udp == Some(a) {
                    let j = choose|j: int| 0 <= j < i && es[j].0 != *t && es[j].1.udp == Some(a);
                    if j == i - 1 {
                        assert(r@.last() == a);
                    } else {
                        assert(old_r.contains(a));
                        let m = choose|m: int| 0 <= m < old_r.len() && old_r[m] == a;
                        assert(r@[m] == a);
                    }
                }
                if r@.contains(a) {
                    let m = choose|m: int| 0 <= m < r@.len() && r@[m] == a;
                    if m < old_r.len() {
                        assert(old_r[m] == a);
                        assert(old_r.contains(a));
                    } else {
                        assert(es[i - 1].1.udp == Some(a));
                    }
                }
            }
        }
    }
    proof {
        assert forall|a: PeerAddr| #[trigger] r@.contains(a) <==> bound_by_other(clients@, *t, a) by {
            if bound_by_other(clients@, *t, a) {
                let k = choose|k: Token| #[trigger] is_other(clients@, *t, k) && clients@[k].udp == Some(a);
                let j = choose|j: int| 0 <= j < es.len() && es[j].0 == k;
                assert(es[j].1.udp == Some(a));
            }
            if r@.contains(a) {
                let j = choose|j: int| 0 <= j < n && es[j].0 != *t && es[j].1.udp == Some(a);
                assert(is_other(clients@, *t, es[j].0));
            }
        }
        assert forall|k: Token| #[trigger] ks.contains(k) <==> (is_other(clients@, *t, k) && clients@[k].udp is Some) by {
            if is_other(clients@, *t, k) && clients@[k].udp is Some {
                let j = choose|j: int| 0 <= j < es.len() && es[j].0 == k;
                assert(es[j].1 == clients@[k]);
            }
            if ks.contains(k) {
                let j = choose|j: int| 0 <= j < n && es[j].0 == k && k != *t && es[j].1.udp is Some;
                assert(es[j] == es[j]);
            }
        }
        assert(one_per_other_client(r@, ks, clients@, *t));
    }
    r
}

/// Each player, with its position, once.
fn player_list(players: &KeyMap<PlayerId, PlayerData>) -> (r: Vec<(PlayerId, PositionBits)>)
    requires
        players.wf(),
    ensures
        r@.len() == players@.len(),
        r@.map_values(|e: (PlayerId, PositionBits)| e.0).no_duplicates(),
        forall|i: int| #![trigger r@[i]] 0 <= i < r@.len() ==> players@.contains_key(r@[i].0) && players@[r@[i].0].position == r@[i].1,
        forall|p: PlayerId| #[trigger] players@.contains_key(p) ==> exists|i: int| 0 <= i < r@.len() && r@[i].0 == p,
{
    proof { players.lemma_view_entries(); }
    let ghost es = players.entries();
    let mut r: Vec<(PlayerId, PositionBits)> = Vec::new();
    let n = players.len();
    let mut i: usize = 0;
    while i < n
        invariant
            n == es.len(),
            es == players.entries(),
            i <= n,
            crate::keymap::distinct_keys(es),
            forall|j: int| #![trigger es[j]] 0 <= j < es.len() ==> players@.contains_key(es[j].0) && players@[es[j].0] == es[j].1,
            r@.len() == i,
            forall|j: int| #![trigger r@[j]] 0 <= j < i ==> r@[j] == (es[j].0, es[j].1.position),
        decreases n - i,
    {
        let (p, d) = players.pair_at(i);
        r.push((*p, d.position));
        i = i + 1;
    }
    proof {
        let ids = r@.map_values(|e: (PlayerId, PositionBits)| e.0);
        assert forall|a: int, b: int| 0 <= a < ids.len() && 0 <= b < ids.len() && a != b implies ids[a] != ids[b] by {
            assert(r@[a] == (es[a].0, es[a].1.position));
            assert(r@[b] == (es[b].0, es[b].1.position));
        }
        assert forall|p: PlayerId| #[trigger] players@.contains_key(p) implies exists|i: int| 0 <= i < r@.len() && r@[i].0 == p by {
            let j = choose|j: int| 0 <= j < es.len() && es[j].0 == p;
            assert(r@[j] == (es[j].0, es[j].1.position));
        }
    }
    r
}

impl<C> State<C> {
    /// Answers a client's request to shake hands, with `random` drawn for
    /// its token: a client that already holds a token is ignored; without
    /// randomness the connection is closed; otherwise the client is
    /// registered under the new token, which it is told.
    pub fn handshake_with(&mut self, session: &mut Option<Token>, random: Option<[u8; 32]>, tcp: C) -> (r: TcpReaction)
        requires
            old(self).tables_wf(),
        ensures
            final(self).tables_wf(),
            (*old(session)) is Some ==> {
                &&& r == TcpReaction::Ignore
                &&& *final(self) == *old(self)
                &&& *final(session) == *old(session)
            },
            (*old(session)) is None && random is None ==> {
                &&& r == TcpReaction::Disconnect
                &&& *final(self) == *old(self)
                &&& *final(session) == *old(session)
            },
            (*old(session)) is None && random is Some ==> {
                let token = Token(random->0);
                &&& r == TcpReaction::Reply(tcp::ServerToClient::Handshake { token })
                &&& *final(session) == Some(token)
                &&& final(self).clients_view() == old(self).clients_view().insert(token, Client { tcp, udp: None, player: None })
                &&& final(self).addrs_view() == old(self).addrs_view()
                &&& final(self).pending_challenges@ == old(self).pending_challenges@
                &&& final(self).players@ == old(self).players@
                &&& final(self).next_player_id == old(self).next_player_id
            },
            // A fresh token keeps the state consistent.
            old(self).consistent() && (random matches Some(b) ==> !old(self).clients_view().contains_key(Token(b)))
                ==> final(self).consistent(),
    {
        if session.is_some() {
            return TcpReaction::Ignore;
        }
        match random {
            None => TcpReaction::Disconnect,
            Some(bytes) => {
                let token = Token(bytes);
                self.clients.token2client.insert(token, Client::new(tcp));
                *session = Some(token);
                proof {
                    if old(self).consistent() && !old(self).clients_view().contains_key(token) {
                        let cs = self.clients_view();
                        let ocs = old(self).clients_view();
                        assert forall|p: PlayerId| #[trigger] self.players@.contains_key(p) implies exists|t: Token| #[trigger] cs.contains_key(t) && cs[t].player == Some(p) by {
                            let t = choose|t: Token| #[trigger] ocs.contains_key(t) && ocs[t].player == Some(p);
                            assert(cs.contains_key(t) && cs[t] == ocs[t]);
                        }
                    }
                }
                TcpReaction::Reply(tcp::ServerToClient::Handshake { token })
            },
        }
    }

    /// Answers a client's message over TCP, drawing fresh randomness for a
    /// token where one is to be issued; see [`State::handshake_with`].
    pub fn handle_tcp_message(&mut self, session: &mut Option<Token>, message: tcp::ClientToServer, tcp: C) -> (r: TcpReaction)
        requires
            old(self).tables_wf(),
        ensures
            final(self).tables_wf(),
            (*old(session)) is Some ==> {
                &&& r == TcpReaction::Ignore
                &&& *final(self) == *old(self)
                &&& *final(session) == *old(session)
            },
            (*old(session)) is None ==> match r {
                TcpReaction::Reply(tcp::ServerToClient::Handshake { token }) => {
                    &&& *final(session) == Some(token)
                    &&& final(self).clients_view() == old(self).clients_view().insert(token, Client { tcp, udp: None, player: None })
                    &&& final(self).addrs_view() == old(self).addrs_view()
                    &&& final(self).pending_challenges@ == old(self).pending_challenges@
                    &&& final(self).players@ == old(self).players@
                    &&& final(self).next_player_id == old(self).next_player_id
                },
                TcpReaction::Disconnect => *final(self) == *old(self) && *final(session) == *old(session),
                _ => false,
            },
            // A fresh token keeps the state consistent.
            old(self).consistent() && (r matches TcpReaction::Reply(tcp::ServerToClient::Handshake { token })
                ==> !old(self).clients_view().contains_key(token)) ==> final(self).consistent(),
    {
        match message {
            tcp::ClientToServer::LetsShakeHands => {
                if session.is_some() {
                    return TcpReaction::Ignore;
                }
                let random = csprng::<32>();
                self.handshake_with(session, random, tcp)
            },
        }
    }

    /// Forgets the client under `token`, its UDP address and its player;
    /// gives back that player, if it had one.
    pub fn clean_up_client(&mut self, token: &Token) -> (r: Option<PlayerId>)
        requires
            old(self).tables_wf(),
        ensures
            final(self).tables_wf(),
            final(self).clients_view() == old(self).clients_view().remove(*token),
            final(self).pending_challenges@ == old(self).pending_challenges@,
            final(self).next_player_id == old(self).next_player_id,
            !old(self).clients_view().contains_key(*token) ==> r is None && *final(self) == *old(self),
            old(self).clients_view().contains_key(*token) ==> {
                let c = old(self).clients_view()[*token];
                &&& r == c.player
                &&& final(self).players@ == (match c.player {
                    Some(p) => old(self).players@.remove(p),
                    None => old(self).players@,
                })
                &&& final(self).addrs_view() == (match c.udp {
                    Some(a) => old(self).addrs_view().remove(a),
                    None => old(self).addrs_view(),
                })
            },
            old(self).consistent() ==> final(self).consistent(),
            addresses_inverse(old(self).clients_view(), old(self).addrs_view())
                ==> addresses_inverse(final(self).clients_view(), final(self).addrs_view()),
    {
        let client = match self.clients.token2client.remove(token) {
            Some(c) => c,
            None => { return None; },
        };
        if let Some(player_id) = client.player {
            let _ = self.players.remove(&player_id);
        }
        if let Some(udp) = client.udp {
            let _ = self.clients.udpaddr2token.remove(&udp);
        }
        proof {
            if old(self).consistent() {
                let ocs = old(self).clients_view();
                let ous = old(self).addrs_view();
                let ops = old(self).players@;
                let cs = self.clients_view();
                let us = self.addrs_view();
                let ps = self.players@;
                assert forall|a: PeerAddr| #[trigger] us.contains_key(a) implies cs.contains_key(us[a]) && cs[us[a]].udp == Some(a) by {
                    assert(ous.contains_key(a));
                    if ous[a] == *token {
                        assert(client.udp == Some(a));
                    }
                }
                assert forall|t: Token| #[trigger] cs.contains_key(t) && cs[t].player is Some implies ps.contains_key(cs[t].player->0) && (cs[t].player->0).0 < self.next_player_id by {
                    assert(ocs.contains_key(t) && ocs.contains_key(*token));
                }
                assert forall|p: PlayerId| #[trigger] ps.contains_key(p) implies exists|t: Token| #[trigger] cs.contains_key(t) && cs[t].player == Some(p) by {
                    let t = choose|t: Token| #[trigger] ocs.contains_key(t) && ocs[t].player == Some(p);
                    assert(cs.contains_key(t) && cs[t] == ocs[t]);
                }
            }
        }
        client.player
    }

    /// Closes the session of a client that held `session`: forgets it and,
    /// where it controlled a player, tells every remaining client that the
    /// player left.
    pub fn disconnect(&mut self, session: Option<Token>) -> (r: Vec<(Token, tcp::ServerToClient)>)
        requires
            old(self).tables_wf(),
        ensures
            final(self).tables_wf(),
            old(self).consistent() ==> final(self).consistent(),
            session is None ==> *final(self) == *old(self) && r@.len() == 0,
            session matches Some(t) ==> {
                &&& final(self).clients_view() == old(self).clients_view().remove(t)
                &&& final(self).pending_challenges@ == old(self).pending_challenges@
                &&& final(self).next_player_id == old(self).next_player_id
                &&& !old(self).clients_view().contains_key(t) ==> *final(self) == *old(self)
                &&& old(self).clients_view().contains_key(t) ==> {
                    let c = old(self).clients_view()[t];
                    &&& final(self).players@ == (match c.player {
                        Some(p) => old(self).players@.remove(p),
                        None => old(self).players@,
                    })
                    &&& final(self).addrs_view() == (match c.udp {
                        Some(a) => old(self).addrs_view().remove(a),
                        None => old(self).addrs_view(),
                    })
                }
                &&& match (if old(self).clients_view().contains_key(t) { old(self).clients_view()[t].player } else { None }) {
                    Some(id) => {
                        &&& tcp_recipients(r@).no_duplicates()
                        &&& forall|i: int| 0 <= i < r@.len() ==> (#[trigger] r@[i]).1 == tcp::ServerToClient::PlayerLeft { id }
                        &&& forall|k: Token| #[trigger] tcp_recipients(r@).contains(k) <==> final(self).clients_view().contains_key(k)
                    },
                    None => r@.len() == 0,
                }
            },
    {
        let mut sends: Vec<(Token, tcp::ServerToClient)> = Vec::new();
        let token = match session {
            Some(t) => t,
            None => { return sends; },
        };
        let id = match self.clean_up_client(&token) {
            Some(id) => id,
            None => { return sends; },
        };
        let others = tokens_except(&self.clients.token2client, &token);
        let mut i: usize = 0;
        while i < others.len()
            invariant
                i <= others@.len(),
                sends@.len() == i,
                forall|j: int| 0 <= j < i ==> (#[trigger] sends@[j]) == (others@[j], tcp::ServerToClient::PlayerLeft { id }),
            decreases others@.len() - i,
        {
            sends.push((others[i], tcp::ServerToClient::PlayerLeft { id }));
            i = i + 1;
        }
        proof {
            let ks = tcp_recipients(sends@);
            assert(ks =~= others@);
            assert forall|k: Token| #[trigger] ks.contains(k) <==> self.clients_view().contains_key(k) by {
                assert(others@.contains(k) <==> is_other(self.clients_view(), token, k));
            }
        }
        sends
    }
}

/// What the server does after a datagram: the answer to its sender, if
/// any, and the messages that it sends to others over UDP and TCP.
pub struct UdpReaction {
    pub reply: Option<udp::ServerToClient>,
    pub udp_sends: Vec<(PeerAddr, udp::ServerToClient)>,
    pub tcp_sends: Vec<(Token, tcp::ServerToClient)>,
}

/// The peers to which a list of UDP messages goes, in order.
pub open spec fn udp_recipients(sends: Seq<(PeerAddr, udp::ServerToClient)>) -> Seq<PeerAddr> {
    sends.map_values(|s: (PeerAddr, udp::ServerToClient)| s.0)
}

/// `sends` tells every client other than the one under `t` that has a UDP
/// address, once each and at that address, that player `id` is at
/// `position`, and tells nobody else.
pub open spec fn relays_position<C>(
    sends: Seq<(PeerAddr, udp::ServerToClient)>,
    clients: Map<Token, Client<C>>,
    t: Token,
    id: PlayerId,
    position: PositionBits,
) -> bool {
    &&& forall|i: int| 0 <= i < sends.len() ==> (#[trigger] sends[i]).1 == udp::ServerToClient::PlayerPosition { id, position }
    &&& exists|ks: Seq<Token>| one_per_other_client(udp_recipients(sends), ks, clients, t)
    &&& forall|a: PeerAddr| #[trigger] udp_recipients(sends).contains(a) <==> bound_by_other(clients, t, a)
    &&& udp_distinct(clients) ==> udp_recipients(sends).no_duplicates()
}

/// A relay of a position sends exactly as many messages as there are
/// clients other than the one under `t` with a UDP address.
pub proof fn lemma_relay_count<C>(
    sends: Seq<(PeerAddr, udp::ServerToClient)>,
    clients: Map<Token, Client<C>>,
    t: Token,
    id: PlayerId,
    position: PositionBits,
)
    requires
        relays_position(sends, clients, t, id, position),
    ensures
        sends.len() == Set::new(|k: Token| is_other(clients, t, k) && clients[k].udp is Some).len(),
{
    let ks = choose|ks: Seq<Token>| one_per_other_client(udp_recipients(sends), ks, clients, t);
    ks.unique_seq_to_set();
    assert(ks.to_set() =~= Set::new(|k: Token| is_other(clients, t, k) && clients[k].udp is Some));
}

/// `sends` tells the client under `t` of every player in `players`, once
/// each, with its position.
pub open spec fn announces_players(
    sends: Seq<(Token, tcp::ServerToClient)>,
    t: Token,
    players: Map<PlayerId, PlayerData>,
) -> bool {
    &&& sends.len() == players.len()
    &&& forall|i: int| #![trigger sends[i]] 0 <= i < sends.len() ==> sends[i].0 == t && (exists|p: PlayerId|
        players.contains_key(p) && sends[i].1 == tcp::ServerToClient::PlayerExists { id: p, position: players[p].position })
    &&& forall|p: PlayerId| #[trigger] players.contains_key(p) ==> exists|i: int| 0 <= i < sends.len()
        && sends[i] == (t, tcp::ServerToClient::PlayerExists { id: p, position: players[p].position })
}

/// `sends` tells every client other than the one under `t`, once each,
/// that player `id` joined.
pub open spec fn announces_join<C>(
    sends: Seq<(Token, tcp::ServerToClient)>,
    clients: Map<Token, Client<C>>,
    t: Token,
    id: PlayerId,
) -> bool {
    &&& forall|i: int| 0 <= i < sends.len() ==> (#[trigger] sends[i]).1 == tcp::ServerToClient::PlayerJoined { id }
    &&& tcp_recipients(sends).no_duplicates()
    &&& forall|k: Token| #[trigger] tcp_recipients(sends).contains(k) <==> is_other(clients, t, k)
}

/// The number that follows `n`, wrapping around.
pub open spec fn next_number(n: u32) -> u32 {
    if n == u32::MAX { 0 } else { (n + 1) as u32 }
}

impl<C> State<C> {
    /// `post` is `pre` with nothing changed but the players.
    pub open spec fn same_but_players(pre: &Self, post: &Self) -> bool {
        &&& post.clients_view() == pre.clients_view()
        &&& post.addrs_view() == pre.addrs_view()
        &&& post.pending_challenges@ == pre.pending_challenges@
        &&& post.next_player_id == pre.next_player_id
    }

    /// A datagram from the address bound to `token`: a new position of its
    /// player is stored and relayed to every other bound client; anything
    /// else changes nothing.
    fn known_token4udpaddr(&mut self, token: Token, message: udp::ClientToServer) -> (r: Vec<(PeerAddr, udp::ServerToClient)>)
        requires
            old(self).tables_wf(),
        ensures
            final(self).tables_wf(),
            Self::same_but_players(&*old(self), &*final(self)),
            match message {
                udp::ClientToServer::PositionChanged { position } => {
                    let cs = old(self).clients_view();
                    if cs.contains_key(token) && cs[token].player is Some && old(self).players@.contains_key(cs[token].player->0) {
                        let id = cs[token].player->0;
                        &&& final(self).players@ == old(self).players@.insert(id, PlayerData { position })
                        &&& relays_position(r@, cs, token, id, position)
                    } else {
                        &&& *final(self) == *old(self)
                        &&& r@.len() == 0
                    }
                },
                _ => *final(self) == *old(self) && r@.len() == 0,
            },
    {
        let mut sends: Vec<(PeerAddr, udp::ServerToClient)> = Vec::new();
        match message {
            udp::ClientToServer::TokenConfirmation { .. } | udp::ClientToServer::TokenChallenge { .. } => sends,
            udp::ClientToServer::PositionChanged { position } => {
                let id = match self.clients.token2client.get(&token) {
                    Some(client) => match client.player {
                        Some(player_id) => player_id,
                        None => { return sends; },
                    },
                    None => { return sends; },
                };
                match self.players.get_mut(&id) {
                    Some(player) => { player.position = position; },
                    None => { return sends; },
                }
                let peers = udp_peers_except(&self.clients.token2client, &token);
                let mut i: usize = 0;
                while i < peers.len()
                    invariant
                        i <= peers@.len(),
                        sends@.len() == i,
                        forall|j: int| 0 <= j < i ==> (#[trigger] sends@[j]) == (peers@[j], udp::ServerToClient::PlayerPosition { id, position }),
                    decreases peers@.len() - i,
                {
                    sends.push((peers[i], udp::ServerToClient::PlayerPosition { id, position }));
                    i = i + 1;
                }
                assert(udp_recipients(sends@) =~= peers@);
                proof {
                    let ks = choose|ks: Seq<Token>| one_per_other_client(peers@, ks, self.clients.token2client@, token);
                    assert(one_per_other_client(udp_recipients(sends@), ks, self.clients.token2client@, token));
                }
                sends
            },
        }
    }
}

impl<C> Clients<C> {
    /// Answers a datagram from the address `address`, for which the nonce
    /// `real_nonce` is pending: a `TokenChallenge` that repeats the nonce
    /// and names the token of a client bound to some other address moves
    /// that client to `address`. Tells whether it did.
    fn challenge_token(&mut self, address: PeerAddr, real_nonce: Nonce, message: udp::ClientToServer) -> (moved: bool)
        requires
            old(self).token2client.wf(),
            old(self).udpaddr2token.wf(),
        ensures
            final(self).token2client.wf(),
            final(self).udpaddr2token.wf(),
            moved == challenge_succeeds(old(self).token2client@, real_nonce, message),
            !moved ==> *final(self) == *old(self),
            moved ==> ({
                let token = message->TokenChallenge_token;
                let c = old(self).token2client@[token];
                &&& final(self).token2client@ == old(self).token2client@.insert(token, Client { tcp: c.tcp, udp: Some(address), player: c.player })
                &&& final(self).udpaddr2token@ == old(self).udpaddr2token@.insert(address, token).remove(c.udp->0)
            }),
    {
        if let udp::ClientToServer::TokenChallenge { token, nonce } = message {
            if !nonce.same(&real_nonce) {
                return false;
            }
            let old_address = match self.token2client.get(&token) {
                Some(client) => match client.udp {
                    Some(stored) => stored,
                    None => { return false; },
                },
                None => { return false; },
            };
            match self.token2client.get_mut(&token) {
                Some(client) => { client.udp = Some(address); },
                None => {},
            }
            self.udpaddr2token.insert(address, token);
            let _ = self.udpaddr2token.remove(&old_address);
            true
        } else {
            false
        }
    }
}

/// A challenge answer succeeds when it repeats the pending nonce and names
/// the token of a client that is bound to an address.
pub open spec fn challenge_succeeds<C>(clients: Map<Token, Client<C>>, real_nonce: Nonce, message: udp::ClientToServer) -> bool {
    match message {
        udp::ClientToServer::TokenChallenge { token, nonce } => {
            &&& nonce == real_nonce
            &&& clients.contains_key(token)
            &&& clients[token].udp is Some
        },
        _ => false,
    }
}

impl<C> State<C> {
    /// The effect of a datagram from an unbound address with no pending
    /// challenge: a `TokenConfirmation` naming the token of an unbound
    /// client binds it to `address` and admits a new player, numbered
    /// `next_player_id`, who is told of every player while the other
    /// clients are told that it joined; any other message is challenged with
    /// a nonce made of `random`, where there is randomness.
    pub open spec fn confirm_step(
        pre: &Self,
        post: &Self,
        address: PeerAddr,
        message: udp::ClientToServer,
        random: Option<[u8; 16]>,
        reply: Option<udp::ServerToClient>,
        tcp_sends: Seq<(Token, tcp::ServerToClient)>,
    ) -> bool {
        match message {
            udp::ClientToServer::TokenConfirmation { token } => {
                let cs = pre.clients_view();
                if cs.contains_key(token) && cs[token].udp is None {
                    let id = PlayerId(pre.next_player_id);
                    let n = pre.players@.len() as int;
                    &&& post.next_player_id == next_number(pre.next_player_id)
                    &&& post.clients_view() == cs.insert(token, Client { tcp: cs[token].tcp, udp: Some(address), player: Some(id) })
                    &&& post.addrs_view() == pre.addrs_view().insert(address, token)
                    &&& post.players@ == pre.players@.insert(id, PlayerData { position: PositionBits([0u32, 0u32]) })
                    &&& post.pending_challenges@ == pre.pending_challenges@
                    &&& reply == Some(udp::ServerToClient::TokenConfirmed)
                    &&& n <= tcp_sends.len()
                    &&& announces_players(tcp_sends.subrange(0, n), token, pre.players@)
                    &&& announces_join(tcp_sends.subrange(n, tcp_sends.len() as int), cs, token, id)
                } else {
                    &&& *post == *pre
                    &&& reply is None
                    &&& tcp_sends.len() == 0
                }
            },
            _ => {
                &&& tcp_sends.len() == 0
                &&& match random {
                    None => *post == *pre && reply is None,
                    Some(bytes) => {
                        &&& post.pending_challenges@ == pre.pending_challenges@.insert(address, Nonce(bytes))
                        &&& post.clients_view() == pre.clients_view()
                        &&& post.addrs_view() == pre.addrs_view()
                        &&& post.players@ == pre.players@
                        &&& post.next_player_id == pre.next_player_id
                        &&& reply == Some(udp::ServerToClient::TokenChallenge { nonce: Nonce(bytes) })
                    },
                }
            },
        }
    }

    fn confirm_token(&mut self, address: PeerAddr, message: udp::ClientToServer, random: Option<[u8; 16]>) -> (r: (
        Option<udp::ServerToClient>,
        Vec<(Token, tcp::ServerToClient)>,
    ))
        requires
            old(self).tables_wf(),
        ensures
            final(self).tables_wf(),
            Self::confirm_step(&*old(self), &*final(self), address, message, random, r.0, r.1@),
    {
        let mut sends: Vec<(Token, tcp::ServerToClient)> = Vec::new();
        match message {
            udp::ClientToServer::TokenConfirmation { token } => {
                match self.clients.token2client.get(&token) {
                    Some(client) => {
                        if client.udp.is_some() {
                            return (None, sends);
                        }
                    },
                    None => { return (None, sends); },
                }
                let ghost pre = *old(self);
                let player_id = PlayerId(self.next_player_id);
                self.next_player_id = if self.next_player_id == u32::MAX { 0 } else { self.next_player_id + 1 };
                match self.clients.token2client.get_mut(&token) {
                    Some(client) => {
                        client.udp = Some(address);
                        client.player = Some(player_id);
                    },
                    None => {},
                }
                self.clients.udpaddr2token.insert(address, token);

                let positions = player_list(&self.players);
                let mut i: usize = 0;
                while i < positions.len()
                    invariant
                        i <= positions@.len(),
                        sends@.len() == i,
                        forall|j: int| 0 <= j < i ==> (#[trigger] sends@[j]) == (token, tcp::ServerToClient::PlayerExists { id: positions@[j].0, position: positions@[j].1 }),
                    decreases positions@.len() - i,
                {
                    let (id, position) = positions[i];
                    sends.push((token, tcp::ServerToClient::PlayerExists { id, position }));
                    i = i + 1;
                }
                let n = sends.len();
                proof {
                    let ps = pre.players@;
                    let a = sends@.subrange(0, n as int);
                    assert(a =~= sends@);
                    assert forall|j: int| #![trigger a[j]] 0 <= j < a.len() implies a[j].0 == token && (exists|p: PlayerId|
                        ps.contains_key(p) && a[j].1 == tcp::ServerToClient::PlayerExists { id: p, position: ps[p].position }) by {
                        assert(positions@[j] == positions@[j]);
                        let p = positions@[j].0;
                        assert(ps.contains_key(p) && ps[p].position == positions@[j].1);
                    }
                    assert forall|p: PlayerId| #[trigger] ps.contains_key(p) implies exists|j: int| 0 <= j < a.len()
                        && a[j] == (token, tcp::ServerToClient::PlayerExists { id: p, position: ps[p].position }) by {
                        let j = choose|j: int| 0 <= j < positions@.len() && positions@[j].0 == p;
                        assert(positions@[j] == positions@[j]);
                        assert(a[j] == sends@[j]);
                    }
                    assert(announces_players(a, token, ps));
                }
                let ghost a0 = sends@;
                let others = tokens_except(&self.clients.token2client, &token);
                let mut k: usize = 0;
                while k < others.len()
                    invariant
                        k <= others@.len(),
                        sends@.len() == n + k,
                        sends@.subrange(0, n as int) == a0,
                        forall|j: int| n <= j < n + k ==> (#[trigger] sends@[j]) == (others@[j - n], tcp::ServerToClient::PlayerJoined { id: player_id }),
                    decreases others@.len() - k,
                {
                    sends.push((others[k], tcp::ServerToClient::PlayerJoined { id: player_id }));
                    k = k + 1;
                    assert(sends@.subrange(0, n as int) =~= a0);
                }
                self.players.insert(player_id, PlayerData::new());
                proof {
                    let cs = pre.clients_view();
                    let b = sends@.subrange(n as int, sends@.len() as int);
                    assert(tcp_recipients(b) =~= others@);
                    assert forall|t2: Token| #[trigger] tcp_recipients(b).contains(t2) <==> is_other(cs, token, t2) by {
                        assert(others@.contains(t2) <==> is_other(self.clients_view(), token, t2));
                        assert(self.clients_view().contains_key(t2) <==> cs.contains_key(t2));
                    }
                    assert forall|j: int| 0 <= j < b.len() implies (#[trigger] b[j]).1 == tcp::ServerToClient::PlayerJoined { id: player_id } by {
                        assert(b[j] == sends@[n + j]);
                    }
                    assert(announces_join(b, cs, token, player_id));
                    assert(a0 =~= a0.subrange(0, n as int));
                    assert(announces_players(sends@.subrange(0, n as int), token, pre.players@));
                }
                (Some(udp::ServerToClient::TokenConfirmed), sends)
            },
            _ => {
                match random {
                    None => (None, sends),
                    Some(bytes) => {
                        let nonce = Nonce(bytes);
                        self.pending_challenges.insert(address, nonce);
                        (Some(udp::ServerToClient::TokenChallenge { nonce }), sends)
                    },
                }
            },
        }
    }
}

impl<C> State<C> {
    /// The effect of a datagram from `address`, with `random` the
    /// randomness for a challenge: from a bound address it goes to
    /// [`State::known_token4udpaddr`]; from an address with a pending
    /// challenge it is taken as the answer; from any other address it goes
    /// to [`State::confirm_step`].
    pub open spec fn udp_step(
        pre: &Self,
        post: &Self,
        address: PeerAddr,
        message: udp::ClientToServer,
        random: Option<[u8; 16]>,
        reply: Option<udp::ServerToClient>,
        udp_sends: Seq<(PeerAddr, udp::ServerToClient)>,
        tcp_sends: Seq<(Token, tcp::ServerToClient)>,
    ) -> bool {
        if pre.addrs_view().contains_key(address) {
            let token = pre.addrs_view()[address];
            let cs = pre.clients_view();
            &&& reply is None
            &&& tcp_sends.len() == 0
            &&& Self::same_but_players(pre, post)
            &&& match message {
                udp::ClientToServer::PositionChanged { position } => {
                    if cs.contains_key(token) && cs[token].player is Some && pre.players@.contains_key(cs[token].player->0) {
                        let id = cs[token].player->0;
                        &&& post.players@ == pre.players@.insert(id, PlayerData { position })
                        &&& relays_position(udp_sends, cs, token, id, position)
                    } else {
                        *post == *pre && udp_sends.len() == 0
                    }
                },
                _ => *post == *pre && udp_sends.len() == 0,
            }
        } else if pre.pending_challenges@.contains_key(address) {
            let nonce = pre.pending_challenges@[address];
            &&& reply is None
            &&& udp_sends.len() == 0
            &&& tcp_sends.len() == 0
            &&& if challenge_succeeds(pre.clients_view(), nonce, message) {
                let token = message->TokenChallenge_token;
                let c = pre.clients_view()[token];
                &&& post.clients_view() == pre.clients_view().insert(token, Client { tcp: c.tcp, udp: Some(address), player: c.player })
                &&& post.addrs_view() == pre.addrs_view().insert(address, token).remove(c.udp->0)
                &&& post.pending_challenges@ == pre.pending_challenges@.remove(address)
                &&& post.players@ == pre.players@
                &&& post.next_player_id == pre.next_player_id
            } else {
                *post == *pre
            }
        } else {
            &&& udp_sends.len() == 0
            &&& Self::confirm_step(pre, post, address, message, random, reply, tcp_sends)
        }
    }

    /// A datagram from an address that is not bound to any client.
    fn unknown_token4udpaddr(&mut self, address: PeerAddr, message: udp::ClientToServer, random: Option<[u8; 16]>) -> (r: (
        Option<udp::ServerToClient>,
        Vec<(Token, tcp::ServerToClient)>,
    ))
        requires
            old(self).tables_wf(),
            !old(self).addrs_view().contains_key(address),
        ensures
            final(self).tables_wf(),
            Self::udp_step(&*old(self), &*final(self), address, message, random, r.0, Seq::empty(), r.1@),
    {
        match self.pending_challenges.entry(address) {
            MapEntry::Occupied(entry) => {
                let nonce = *entry.get();
                if self.clients.challenge_token(address, nonce, message) {
                    entry.remove();
                }
                return (None, Vec::new());
            },
            MapEntry::Vacant(_) => {},
        }
        self.confirm_token(address, message, random)
    }

    /// Answers a datagram from `address`, with `random` as the randomness
    /// for a challenge, should one be made; see [`State::udp_step`].
    pub fn handle_udp_message_with(&mut self, address: PeerAddr, message: udp::ClientToServer, random: Option<[u8; 16]>) -> (r: UdpReaction)
        requires
            old(self).tables_wf(),
        ensures
            final(self).tables_wf(),
            Self::udp_step(&*old(self), &*final(self), address, message, random, r.reply, r.udp_sends@, r.tcp_sends@),
            old(self).consistent() && old(self).next_player_id < u32::MAX ==> final(self).consistent(),
    {
        let known = match self.clients.udpaddr2token.get(&address) {
            Some(token) => Some(*token),
            None => None,
        };
        match known {
            Some(token) => {
                let udp_sends = self.known_token4udpaddr(token, message);
                let r = UdpReaction { reply: None, udp_sends, tcp_sends: Vec::new() };
                proof {
                    if old(self).consistent() && old(self).next_player_id < u32::MAX {
                        Self::lemma_udp_step_consistent(&*old(self), &*self, address, message, random, r.reply, r.udp_sends@, r.tcp_sends@);
                    }
                }
                r
            },
            None => {
                let (reply, tcp_sends) = self.unknown_token4udpaddr(address, message, random);
                let r = UdpReaction { reply, udp_sends: Vec::new(), tcp_sends };
                proof {
                    if old(self).consistent() && old(self).next_player_id < u32::MAX {
                        Self::lemma_udp_step_consistent(&*old(self), &*self, address, message, random, r.reply, r.udp_sends@, r.tcp_sends@);
                    }
                }
                r
            },
        }
    }

    /// Whether a datagram from `address` would be answered with a
    /// challenge, for which randomness is drawn.
    pub open spec fn needs_nonce(&self, address: PeerAddr, message: udp::ClientToServer) -> bool {
        &&& !self.addrs_view().contains_key(address)
        &&& !self.pending_challenges@.contains_key(address)
        &&& !(message is TokenConfirmation)
    }

    /// Answers a datagram from `address`, drawing fresh randomness where a
    /// challenge is made; see [`State::udp_step`].
    pub fn handle_udp_message(&mut self, address: PeerAddr, message: udp::ClientToServer) -> (r: UdpReaction)
        requires
            old(self).tables_wf(),
        ensures
            final(self).tables_wf(),
            exists|random: Option<[u8; 16]>|
                Self::udp_step(&*old(self), &*final(self), address, message, random, r.reply, r.udp_sends@, r.tcp_sends@),
            !old(self).needs_nonce(address, message)
                ==> Self::udp_step(&*old(self), &*final(self), address, message, None, r.reply, r.udp_sends@, r.tcp_sends@),
            old(self).consistent() && old(self).next_player_id < u32::MAX ==> final(self).consistent(),
    {
        let known = self.clients.udpaddr2token.get(&address).is_some();
        let pending = self.pending_challenges.get(&address).is_some();
        let confirmation = match message {
            udp::ClientToServer::TokenConfirmation { .. } => true,
            _ => false,
        };
        let random = if !known && !pending && !confirmation { csprng::<16>() } else { None };
        self.handle_udp_message_with(address, message, random)
    }
}

impl<C> State<C> {
    /// Every answer to a datagram keeps the server's state consistent, as
    /// long as player numbers have not run out (`next_player_id` has not
    /// reached `u32::MAX`).
    pub proof fn lemma_udp_step_consistent(
        pre: &Self,
        post: &Self,
        address: PeerAddr,
        message: udp::ClientToServer,
        random: Option<[u8; 16]>,
        reply: Option<udp::ServerToClient>,
        udp_sends: Seq<(PeerAddr, udp::ServerToClient)>,
        tcp_sends: Seq<(Token, tcp::ServerToClient)>,
    )
        requires
            pre.consistent(),
            pre.next_player_id < u32::MAX,
            Self::udp_step(pre, post, address, message, random, reply, udp_sends, tcp_sends),
        ensures
            post.consistent(),
    {
        let cs = pre.clients_view();
        let us = pre.addrs_view();
        let ps = pre.players@;
        let cs2 = post.clients_view();
        let us2 = post.addrs_view();
        let ps2 = post.players@;
        if us.contains_key(address) {
            if ps2 != ps {
                let id = cs[us[address]].player->0;
                assert forall|t: Token| #[trigger] cs2.contains_key(t) && cs2[t].player is Some implies ps2.contains_key(cs2[t].player->0) && (cs2[t].player->0).0 < post.next_player_id by {
                    assert(cs.contains_key(t));
                }
                assert forall|p: PlayerId| #[trigger] ps2.contains_key(p) implies exists|t: Token| #[trigger] cs2.contains_key(t) && cs2[t].player == Some(p) by {
                    assert(ps.contains_key(p));
                    let t = choose|t: Token| #[trigger] cs.contains_key(t) && cs[t].player == Some(p);
                    assert(cs2.contains_key(t));
                }
            }
        } else if pre.pending_challenges@.contains_key(address) {
            let nonce = pre.pending_challenges@[address];
            if challenge_succeeds(cs, nonce, message) {
                lemma_challenge_keeps_addresses_inverse(cs, us, cs2, us2, address, nonce, message);
                assert forall|t: Token| #[trigger] cs2.contains_key(t) && cs2[t].player is Some implies ps2.contains_key(cs2[t].player->0) && (cs2[t].player->0).0 < post.next_player_id by {
                    assert(cs.contains_key(t));
                }
                assert forall|t1: Token, t2: Token| #[trigger] cs2.contains_key(t1) && #[trigger] cs2.contains_key(t2) && t1 != t2 && cs2[t1].player is Some implies cs2[t1].player != cs2[t2].player by {
                    assert(cs.contains_key(t1) && cs.contains_key(t2));
                    assert(cs2[t1].player == cs[t1].player && cs2[t2].player == cs[t2].player);
                }
                assert forall|p: PlayerId| #[trigger] ps2.contains_key(p) implies exists|t: Token| #[trigger] cs2.contains_key(t) && cs2[t].player == Some(p) by {
                    let t = choose|t: Token| #[trigger] cs.contains_key(t) && cs[t].player == Some(p);
                    assert(cs2.contains_key(t));
                }
            }
        } else {
            match message {
                udp::ClientToServer::TokenConfirmation { token } => {
                    if cs.contains_key(token) && cs[token].udp is None {
                        let id = PlayerId(pre.next_player_id);
                        assert(!ps.contains_key(id)) by {
                            if ps.contains_key(id) {
                                let t = choose|t: Token| #[trigger] cs.contains_key(t) && cs[t].player == Some(id);
                            }
                        }
                        Self::lemma_confirm_keeps_addresses_inverse(pre, post, address, message, random, reply, tcp_sends);
                        assert forall|t: Token| #[trigger] cs2.contains_key(t) && cs2[t].player is Some implies ps2.contains_key(cs2[t].player->0) && (cs2[t].player->0).0 < post.next_player_id by {
                            if t != token {
                                assert(cs.contains_key(t));
                            }
                        }
                        assert forall|t1: Token, t2: Token| #[trigger] cs2.contains_key(t1) && #[trigger] cs2.contains_key(t2) && t1 != t2 && cs2[t1].player is Some implies cs2[t1].player != cs2[t2].player by {
                            assert(cs.contains_key(t1) && cs.contains_key(t2));
                            if t1 != token && t2 != token {
                                assert(cs2[t1] == cs[t1] && cs2[t2] == cs[t2]);
                            } else if t1 == token {
                                if cs[t2].player is Some {
                                    assert((cs[t2].player->0).0 < pre.next_player_id);
                                }
                            } else {
                                assert((cs[t1].player->0).0 < pre.next_player_id);
                            }
                        }
                        assert forall|p: PlayerId| #[trigger] ps2.contains_key(p) implies exists|t: Token| #[trigger] cs2.contains_key(t) && cs2[t].player == Some(p) by {
                            if p == id {
                                assert(cs2.contains_key(token) && cs2[token].player == Some(p));
                            } else {
                                let t = choose|t: Token| #[trigger] cs.contains_key(t) && cs[t].player == Some(p);
                                assert(t != token);
                                assert(cs2.contains_key(t) && cs2[t] == cs[t]);
                            }
                        }
                    }
                },
                _ => {},
            }
        }
    }
}

impl<C> State<C> {
    /// A client that follows the protocol is admitted: once its handshake
    /// has registered it under `token`, the confirmation of that token from
    /// an address that is neither bound nor challenged binds the address to
    /// it, gives it the next player, and is answered `TokenConfirmed`.
    pub proof fn lemma_handshake_then_confirmation_admits(
        pre: &Self,
        mid: &Self,
        post: &Self,
        token: Token,
        tcp: C,
        address: PeerAddr,
        random: Option<[u8; 16]>,
        reply: Option<udp::ServerToClient>,
        udp_sends: Seq<(PeerAddr, udp::ServerToClient)>,
        tcp_sends: Seq<(Token, tcp::ServerToClient)>,
    )
        requires
            mid.clients_view() == pre.clients_view().insert(token, Client { tcp, udp: None, player: None }),
            !mid.addrs_view().contains_key(address),
            !mid.pending_challenges@.contains_key(address),
            Self::udp_step(mid, post, address, udp::ClientToServer::TokenConfirmation { token }, random, reply, udp_sends, tcp_sends),
        ensures
            reply == Some(udp::ServerToClient::TokenConfirmed),
            post.clients_view().contains_key(token),
            post.clients_view()[token].udp == Some(address),
            post.clients_view()[token].player == Some(PlayerId(mid.next_player_id)),
            post.addrs_view().contains_key(address),
            post.addrs_view()[address] == token,
            post.players@.contains_key(PlayerId(mid.next_player_id)),
            udp_sends.len() == 0,
    {
    }
}

/// Answering a challenge keeps the UDP table the inverse of the clients'
/// bound addresses: whether or not the answer moves its client to the
/// challenged address, which was bound to no client.
pub proof fn lemma_challenge_keeps_addresses_inverse<C>(
    cs: Map<Token, Client<C>>,
    us: Map<PeerAddr, Token>,
    cs2: Map<Token, Client<C>>,
    us2: Map<PeerAddr, Token>,
    address: PeerAddr,
    nonce: Nonce,
    message: udp::ClientToServer,
)
    requires
        addresses_inverse(cs, us),
        !us.contains_key(address),
        challenge_succeeds(cs, nonce, message) ==> ({
            let token = message->TokenChallenge_token;
            let c = cs[token];
            &&& cs2 == cs.insert(token, Client { tcp: c.tcp, udp: Some(address), player: c.player })
            &&& us2 == us.insert(address, token).remove(c.udp->0)
        }),
        !challenge_succeeds(cs, nonce, message) ==> cs2 == cs && us2 == us,
    ensures
        addresses_inverse(cs2, us2),
{
    if challenge_succeeds(cs, nonce, message) {
        let token = message->TokenChallenge_token;
        let old_addr = cs[token].udp->0;
        assert(us.contains_key(old_addr) && us[old_addr] == token);
        assert(old_addr != address);
        assert forall|a: PeerAddr| #[trigger] us2.contains_key(a) implies cs2.contains_key(us2[a]) && cs2[us2[a]].udp == Some(a) by {
            if a != address {
                assert(us.contains_key(a));
                if us[a] == token {
                    assert(cs[token].udp == Some(a));
                }
            }
        }
        assert forall|t: Token| #[trigger] cs2.contains_key(t) && cs2[t].udp is Some implies us2.contains_key(cs2[t].udp->0) && us2[cs2[t].udp->0] == t by {
            if t != token {
                let a = cs[t].udp->0;
                assert(us.contains_key(a) && us[a] == t);
                assert(a != address);
                assert(a != old_addr);
            }
        }
    }
}

impl<C> State<C> {
    /// Confirming a token from an address bound to no client keeps the UDP
    /// table the inverse of the clients' bound addresses, whatever the
    /// message and its answer.
    pub proof fn lemma_confirm_keeps_addresses_inverse(
        pre: &Self,
        post: &Self,
        address: PeerAddr,
        message: udp::ClientToServer,
        random: Option<[u8; 16]>,
        reply: Option<udp::ServerToClient>,
        tcp_sends: Seq<(Token, tcp::ServerToClient)>,
    )
        requires
            addresses_inverse(pre.clients_view(), pre.addrs_view()),
            !pre.addrs_view().contains_key(address),
            Self::confirm_step(pre, post, address, message, random, reply, tcp_sends),
        ensures
            addresses_inverse(post.clients_view(), post.addrs_view()),
    {
        let cs = pre.clients_view();
        let us = pre.addrs_view();
        let cs2 = post.clients_view();
        let us2 = post.addrs_view();
        if let udp::ClientToServer::TokenConfirmation { token } = message {
            if cs.contains_key(token) && cs[token].udp is None {
                assert forall|a: PeerAddr| #[trigger] us2.contains_key(a) implies cs2.contains_key(us2[a]) && cs2[us2[a]].udp == Some(a) by {
                    if a != address {
                        assert(us.contains_key(a));
                        assert(us[a] != token);
                    }
                }
                assert forall|t: Token| #[trigger] cs2.contains_key(t) && cs2[t].udp is Some implies us2.contains_key(cs2[t].udp->0) && us2[cs2[t].udp->0] == t by {
                    if t != token {
                        let a = cs[t].udp->0;
                        assert(us.contains_key(a) && us[a] == t);
                    }
                }
            }
        }
    }
}

} // verus!
