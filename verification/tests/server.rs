use game::protocol::{tcp, udp, Nonce, PeerAddr, PlayerId, PositionBits, Token};
use game::server::{State, TcpReaction};

fn addr(last: u8, port: u16) -> PeerAddr {
    PeerAddr::V4 { ip4: [127, 0, 0, last], port }
}

fn joined(s: &mut State<u32>, session: &mut Option<Token>, seed: u8, from: PeerAddr) -> Token {
    let r = s.handshake_with(session, Some([seed; 32]), seed as u32);
    let token = Token([seed; 32]);
    assert_eq!(r, TcpReaction::Reply(tcp::ServerToClient::Handshake { token }));
    let u = s.handle_udp_message_with(from, udp::ClientToServer::TokenConfirmation { token }, None);
    assert_eq!(u.reply, Some(udp::ServerToClient::TokenConfirmed));
    token
}

#[test]
fn new_state_is_empty() {
    let s: State<u32> = State::new();
    assert_eq!(s.clients.token2client.len(), 0);
    assert_eq!(s.clients.udpaddr2token.len(), 0);
    assert_eq!(s.pending_challenges.len(), 0);
    assert_eq!(s.players.len(), 0);
    assert_eq!(s.next_player_id, 0);
}

#[test]
fn handshake_registers_client_once() {
    let mut s: State<u32> = State::new();
    let mut session = None;
    let r = s.handshake_with(&mut session, Some([5; 32]), 1);
    assert_eq!(r, TcpReaction::Reply(tcp::ServerToClient::Handshake { token: Token([5; 32]) }));
    assert_eq!(session, Some(Token([5; 32])));
    assert_eq!(s.clients.token2client.len(), 1);
    let again = s.handshake_with(&mut session, Some([6; 32]), 2);
    assert_eq!(again, TcpReaction::Ignore);
    assert_eq!(s.clients.token2client.len(), 1);
}

#[test]
fn handshake_without_randomness_disconnects() {
    let mut s: State<u32> = State::new();
    let mut session = None;
    assert_eq!(s.handshake_with(&mut session, None, 1), TcpReaction::Disconnect);
    assert_eq!(session, None);
    assert_eq!(s.clients.token2client.len(), 0);
}

#[test]
fn tcp_handshake_draws_token() {
    let mut s: State<u32> = State::new();
    let mut session = None;
    match s.handle_tcp_message(&mut session, tcp::ClientToServer::LetsShakeHands, 3) {
        TcpReaction::Reply(tcp::ServerToClient::Handshake { token }) => {
            assert_eq!(session, Some(token));
            assert!(s.clients.token2client.get(&token).is_some());
        },
        other => panic!("unexpected reaction {other:?}"),
    }
    assert_eq!(s.handle_tcp_message(&mut session, tcp::ClientToServer::LetsShakeHands, 3), TcpReaction::Ignore);
}

#[test]
fn confirmation_admits_player_and_announces() {
    let mut s: State<u32> = State::new();
    let mut first = None;
    let t1 = joined(&mut s, &mut first, 1, addr(1, 5000));
    assert_eq!(s.next_player_id, 1);
    assert_eq!(s.players.len(), 1);
    assert_eq!(s.players.get(&PlayerId(0)).map(|p| p.position), Some(PositionBits([0, 0])));

    let mut second = None;
    s.handshake_with(&mut second, Some([2; 32]), 2);
    let t2 = Token([2; 32]);
    let u = s.handle_udp_message_with(addr(2, 5000), udp::ClientToServer::TokenConfirmation { token: t2 }, None);
    assert_eq!(u.reply, Some(udp::ServerToClient::TokenConfirmed));
    assert!(u.udp_sends.is_empty());
    assert_eq!(
        u.tcp_sends,
        vec![
            (t2, tcp::ServerToClient::PlayerExists { id: PlayerId(0), position: PositionBits([0, 0]) }),
            (t1, tcp::ServerToClient::PlayerJoined { id: PlayerId(1) }),
        ]
    );
    assert_eq!(s.next_player_id, 2);
    assert_eq!(s.clients.udpaddr2token.get(&addr(2, 5000)), Some(&t2));
}

#[test]
fn second_confirmation_changes_nothing() {
    let mut s: State<u32> = State::new();
    let mut session = None;
    let t = joined(&mut s, &mut session, 1, addr(1, 5000));
    let u = s.handle_udp_message_with(addr(9, 5000), udp::ClientToServer::TokenConfirmation { token: t }, None);
    assert_eq!(u.reply, None);
    assert!(u.tcp_sends.is_empty());
    assert_eq!(s.players.len(), 1);
    assert_eq!(s.next_player_id, 1);
}

#[test]
fn unknown_token_confirmation_is_ignored() {
    let mut s: State<u32> = State::new();
    let u = s.handle_udp_message_with(addr(1, 1), udp::ClientToServer::TokenConfirmation { token: Token([7; 32]) }, None);
    assert_eq!(u.reply, None);
    assert_eq!(s.players.len(), 0);
}

#[test]
fn position_relayed_to_others() {
    let mut s: State<u32> = State::new();
    let (mut a, mut b) = (None, None);
    joined(&mut s, &mut a, 1, addr(1, 5000));
    joined(&mut s, &mut b, 2, addr(2, 5000));
    let position = PositionBits([1.5f32.to_bits(), (-2.0f32).to_bits()]);
    let u = s.handle_udp_message_with(addr(1, 5000), udp::ClientToServer::PositionChanged { position }, None);
    assert_eq!(u.reply, None);
    assert!(u.tcp_sends.is_empty());
    assert_eq!(u.udp_sends, vec![(addr(2, 5000), udp::ServerToClient::PlayerPosition { id: PlayerId(0), position })]);
    assert_eq!(s.players.get(&PlayerId(0)).map(|p| p.position), Some(position));
}

#[test]
fn stranger_is_challenged_and_moves_client() {
    let mut s: State<u32> = State::new();
    let (mut a, mut b) = (None, None);
    let t1 = joined(&mut s, &mut a, 1, addr(1, 5000));
    joined(&mut s, &mut b, 2, addr(2, 5000));
    let position = PositionBits([3, 4]);
    let new_addr = addr(1, 6000);

    let u = s.handle_udp_message_with(new_addr, udp::ClientToServer::PositionChanged { position }, Some([9; 16]));
    let nonce = Nonce([9; 16]);
    assert_eq!(u.reply, Some(udp::ServerToClient::TokenChallenge { nonce }));
    assert_eq!(s.pending_challenges.get(&new_addr), Some(&nonce));

    // a wrong nonce changes nothing
    let u = s.handle_udp_message_with(new_addr, udp::ClientToServer::TokenChallenge { token: t1, nonce: Nonce([8; 16]) }, None);
    assert_eq!(u.reply, None);
    assert_eq!(s.clients.udpaddr2token.get(&addr(1, 5000)), Some(&t1));

    let u = s.handle_udp_message_with(new_addr, udp::ClientToServer::TokenChallenge { token: t1, nonce }, None);
    assert_eq!(u.reply, None);
    assert!(s.pending_challenges.get(&new_addr).is_none());
    assert_eq!(s.clients.udpaddr2token.get(&new_addr), Some(&t1));
    assert!(s.clients.udpaddr2token.get(&addr(1, 5000)).is_none());

    let u = s.handle_udp_message_with(new_addr, udp::ClientToServer::PositionChanged { position }, None);
    assert_eq!(u.udp_sends, vec![(addr(2, 5000), udp::ServerToClient::PlayerPosition { id: PlayerId(0), position })]);
}

#[test]
fn stranger_without_randomness_gets_nothing() {
    let mut s: State<u32> = State::new();
    let u = s.handle_udp_message_with(addr(3, 1), udp::ClientToServer::PositionChanged { position: PositionBits([0, 0]) }, None);
    assert_eq!(u.reply, None);
    assert_eq!(s.pending_challenges.len(), 0);
}

#[test]
fn stranger_challenge_draws_nonce() {
    let mut s: State<u32> = State::new();
    let u = s.handle_udp_message(addr(3, 1), udp::ClientToServer::PositionChanged { position: PositionBits([0, 0]) });
    match u.reply {
        Some(udp::ServerToClient::TokenChallenge { nonce }) => {
            assert_eq!(s.pending_challenges.get(&addr(3, 1)), Some(&nonce));
        },
        other => panic!("unexpected reply {other:?}"),
    }
}

#[test]
fn disconnect_tells_others() {
    let mut s: State<u32> = State::new();
    let (mut a, mut b) = (None, None);
    let t1 = joined(&mut s, &mut a, 1, addr(1, 5000));
    let t2 = joined(&mut s, &mut b, 2, addr(2, 5000));
    let sends = s.disconnect(Some(t1));
    assert_eq!(sends, vec![(t2, tcp::ServerToClient::PlayerLeft { id: PlayerId(0) })]);
    assert!(s.clients.token2client.get(&t1).is_none());
    assert!(s.clients.udpaddr2token.get(&addr(1, 5000)).is_none());
    assert!(s.players.get(&PlayerId(0)).is_none());
    assert_eq!(s.players.len(), 1);
    assert!(s.disconnect(None).is_empty());
}

#[test]
fn disconnect_before_confirmation_tells_nobody() {
    let mut s: State<u32> = State::new();
    let (mut a, mut b) = (None, None);
    joined(&mut s, &mut a, 1, addr(1, 5000));
    s.handshake_with(&mut b, Some([2; 32]), 2);
    let sends = s.disconnect(b);
    assert!(sends.is_empty());
    assert_eq!(s.clients.token2client.len(), 1);
}

#[test]
fn clean_up_unknown_client() {
    let mut s: State<u32> = State::new();
    assert_eq!(s.clean_up_client(&Token([1; 32])), None);
    let mut a = None;
    let t = joined(&mut s, &mut a, 1, addr(1, 1));
    assert_eq!(s.clean_up_client(&t), Some(PlayerId(0)));
    assert_eq!(s.players.len(), 0);
    assert_eq!(s.clients.udpaddr2token.len(), 0);
}

#[test]
fn position_relayed_once_per_client_sharing_an_address() {
    let mut s: State<u32> = State::new();
    let (mut a, mut b, mut c) = (None, None, None);
    joined(&mut s, &mut a, 1, addr(1, 5000));
    joined(&mut s, &mut b, 2, addr(2, 5000));
    let t3 = joined(&mut s, &mut c, 3, addr(3, 5000));
    // the third client's record is made to share the second's address
    if let Some(client) = s.clients.token2client.get_mut(&t3) {
        client.udp = Some(addr(2, 5000));
    }
    let position = PositionBits([5, 6]);
    let u = s.handle_udp_message_with(addr(1, 5000), udp::ClientToServer::PositionChanged { position }, None);
    let m = udp::ServerToClient::PlayerPosition { id: PlayerId(0), position };
    assert_eq!(u.udp_sends, vec![(addr(2, 5000), m), (addr(2, 5000), m)]);
}
