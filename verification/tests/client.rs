use game::client::{ClientMessage, Network, ServerMessage};
use game::protocol::{tcp, udp, Nonce, PlayerId, PositionBits, Token};

#[test]
fn new_session_is_idle() {
    let mut n = Network::new();
    assert_eq!(n.token(), None);
    assert!(!n.is_ready());
    assert_eq!(n.player_count(), 0);
    assert!(n.take_outgoing(true).is_empty());
}

#[test]
fn start_queues_handshake() {
    let mut n = Network::new();
    n.start();
    assert_eq!(n.take_outgoing(true), vec![ClientMessage::Tcp(tcp::ClientToServer::LetsShakeHands)]);
    assert!(n.take_outgoing(true).is_empty());
}

#[test]
fn handshake_is_confirmed_over_udp() {
    let mut n = Network::new();
    let token = Token([4; 32]);
    n.receive(ServerMessage::Tcp(tcp::ServerToClient::Handshake { token }));
    assert_eq!(n.token(), Some(token));
    assert_eq!(n.take_outgoing(true), vec![ClientMessage::Udp(udp::ClientToServer::TokenConfirmation { token })]);
}

#[test]
fn challenge_answered_with_token() {
    let mut n = Network::new();
    let nonce = Nonce([1; 16]);
    n.receive(ServerMessage::Udp(udp::ServerToClient::TokenChallenge { nonce }));
    assert!(n.take_outgoing(true).is_empty());
    let token = Token([4; 32]);
    n.receive(ServerMessage::Tcp(tcp::ServerToClient::Handshake { token }));
    n.receive(ServerMessage::Udp(udp::ServerToClient::TokenChallenge { nonce }));
    assert_eq!(
        n.take_outgoing(true),
        vec![
            ClientMessage::Udp(udp::ClientToServer::TokenConfirmation { token }),
            ClientMessage::Udp(udp::ClientToServer::TokenChallenge { token, nonce }),
        ]
    );
}

#[test]
fn enqueue_waits_for_confirmation() {
    let mut n = Network::new();
    let m = ClientMessage::Udp(udp::ClientToServer::PositionChanged { position: PositionBits([1, 2]) });
    n.enqueue(true, m);
    assert!(n.take_outgoing(true).is_empty());
    n.receive(ServerMessage::Udp(udp::ServerToClient::TokenConfirmed));
    assert!(n.is_ready());
    n.enqueue(false, m);
    assert!(n.take_outgoing(true).is_empty());
    n.enqueue(true, m);
    assert!(n.take_outgoing(false).is_empty());
    assert_eq!(n.take_outgoing(true), vec![m]);
}

#[test]
fn players_followed() {
    let mut n = Network::new();
    n.receive(ServerMessage::Tcp(tcp::ServerToClient::PlayerExists { id: PlayerId(3), position: PositionBits([5, 6]) }));
    n.receive(ServerMessage::Tcp(tcp::ServerToClient::PlayerJoined { id: PlayerId(4) }));
    assert_eq!(n.player_count(), 2);
    assert_eq!(n.player_position(PlayerId(3)), Some(PositionBits([5, 6])));
    assert_eq!(n.player_position(PlayerId(4)), Some(PositionBits([0, 0])));
    n.receive(ServerMessage::Udp(udp::ServerToClient::PlayerPosition { id: PlayerId(4), position: PositionBits([7, 8]) }));
    assert_eq!(n.player_position(PlayerId(4)), Some(PositionBits([7, 8])));
    // an unknown player's position is dropped
    n.receive(ServerMessage::Udp(udp::ServerToClient::PlayerPosition { id: PlayerId(9), position: PositionBits([7, 8]) }));
    assert_eq!(n.player_position(PlayerId(9)), None);
    n.receive(ServerMessage::Tcp(tcp::ServerToClient::PlayerLeft { id: PlayerId(3) }));
    assert_eq!(n.player_position(PlayerId(3)), None);
    assert_eq!(n.player_count(), 1);
}

#[test]
fn queue_keeps_order() {
    let mut n = Network::new();
    n.start();
    n.receive(ServerMessage::Udp(udp::ServerToClient::TokenConfirmed));
    let a = ClientMessage::Udp(udp::ClientToServer::PositionChanged { position: PositionBits([1, 1]) });
    let b = ClientMessage::Udp(udp::ClientToServer::PositionChanged { position: PositionBits([2, 2]) });
    n.enqueue(true, a);
    n.enqueue(true, b);
    assert_eq!(n.take_outgoing(true), vec![ClientMessage::Tcp(tcp::ClientToServer::LetsShakeHands), a, b]);
}

#[test]
fn positions_list_each_player_once() {
    let mut n = Network::new();
    n.receive(ServerMessage::Tcp(tcp::ServerToClient::PlayerExists { id: PlayerId(1), position: PositionBits([1, 1]) }));
    n.receive(ServerMessage::Tcp(tcp::ServerToClient::PlayerExists { id: PlayerId(2), position: PositionBits([2, 2]) }));
    n.receive(ServerMessage::Tcp(tcp::ServerToClient::PlayerExists { id: PlayerId(1), position: PositionBits([3, 3]) }));
    let mut p = n.positions();
    p.sort_by_key(|(id, _)| id.0);
    assert_eq!(p, vec![(PlayerId(1), PositionBits([3, 3])), (PlayerId(2), PositionBits([2, 2]))]);
}
