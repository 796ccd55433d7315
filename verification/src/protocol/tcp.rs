//! Messages over the TCP connection, each sent as a frame: its length as a
//! big-endian `u16`, then its bytes.

use vstd::prelude::*;
use super::{PlayerId, PositionBits, Token};

verus! {

pub const PORT: u16 = 10079;

pub const MAX_SERVER_LEN: u16 = 512;
pub const MAX_CLIENT_LEN: u16 = 512;

/// What the server tells a client over TCP.
#[derive(Clone, Copy, Debug, PartialEq, Eq)]
pub enum ServerToClient {
    Handshake { token: Token },
    PlayerExists { id: PlayerId, position: PositionBits },
    PlayerJoined { id: PlayerId },
    PlayerLeft { id: PlayerId },
}

/// What a client tells the server over TCP.
#[derive(Clone, Copy, Debug, PartialEq, Eq)]
pub enum ClientToServer {
    LetsShakeHands,
}

} // verus!
