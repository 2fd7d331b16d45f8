//! The preamble of a connection through the SSH tunnel.
//!
//! In tunnel mode each logical stream is a fresh TCP connection to a forwarded
//! port that SSH carries to the agent's loopback listener. To keep another local
//! user on the target from speaking to that listener, every connection opens
//! with the 32-byte session [`Token`] followed by a one-byte opcode.

use crate::handshake::Token;
use crate::text::push_bytes;
use vstd::prelude::*;

verus! {

/// A forwarded connection: a stream header and spliced bytes follow.
pub const OP_STREAM: u8 = 0x01;

/// The persistent liveness connection, which the agent counts as a client.
pub const OP_KEEPALIVE: u8 = 0x02;

/// A request to end the session now.
pub const OP_SHUTDOWN: u8 = 0x03;

/// The bytes of a preamble: 32 token bytes, then a one-byte opcode.
pub open spec fn preamble_of(token: Seq<u8>, opcode: u8) -> Seq<u8> {
    token.push(opcode)
}

/// The bytes that open a connection.
pub fn preamble(token: &Token, opcode: u8) -> (r: Vec<u8>)
    ensures
        r@ == preamble_of(token@, opcode),
{
    let mut v: Vec<u8> = Vec::new();
    push_bytes(&mut v, token.as_bytes().as_slice());
    v.push(opcode);
    proof {
        assert(v@ =~= preamble_of(token@, opcode));
    }
    v
}

/// The preamble is the token and then the opcode, and nothing else.
pub proof fn law_preamble(token: Seq<u8>, opcode: u8)
    requires
        token.len() == 32,
    ensures
        preamble_of(token, opcode).len() == 33,
        preamble_of(token, opcode).take(32) == token,
        preamble_of(token, opcode)[32] == opcode,
{
    assert(preamble_of(token, opcode).take(32) =~= token);
}

} // verus!
