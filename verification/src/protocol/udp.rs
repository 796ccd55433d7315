//! Messages over UDP, one per datagram.

use vstd::prelude::*;
use super::{Nonce, PlayerId, PositionBits, Token};

verus! {

pub const PORT: u16 = 10089;

pub const MAX_SERVER_LEN: u16 = 512;
pub const MAX_CLIENT_LEN: u16 = 512;

/// What the server tells a client over UDP.
#[derive(Clone, Copy, Debug, PartialEq, Eq)]
pub enum ServerToClient {
    TokenConfirmed,
    TokenChallenge { nonce: Nonce },
    PlayerPosition { id: PlayerId, position: PositionBits },
}

/// What a client tells the server over UDP.
#[derive(Clone, Copy, Debug, PartialEq, Eq)]
pub enum ClientToServer {
    TokenConfirmation { token: Token },
    TokenChallenge { token: Token, nonce: Nonce },
    PositionChanged { position: PositionBits },
}

} // verus!
