//! What is drawn by chance for a step, where the step asks for it.
use vstd::prelude::*;

use crate::crypto::random_bytes;

verus! {

/// What chance gives a step that asks for it: the bytes that name a staging file, and a nonce.
/// Each is missing where the source of randomness fails.
#[derive(Clone, Copy, Debug)]
pub struct Draw {
    pub token: Option<[u8; 16]>,
    pub nonce: Option<[u8; 24]>,
}

/// The contents of a `Draw`.
pub struct DrawView {
    pub token: Option<Seq<u8>>,
    pub nonce: Option<Seq<u8>>,
}

/// The bytes of an array that may be missing.
pub open spec fn drawn_bytes<const N: usize>(bytes: Option<[u8; N]>) -> Option<Seq<u8>> {
    match bytes {
        Some(bytes) => Some(bytes@),
        None => None,
    }
}

impl View for Draw {
    type V = DrawView;

    open spec fn view(&self) -> DrawView {
        DrawView { token: drawn_bytes(self.token), nonce: drawn_bytes(self.nonce) }
    }
}

/// What a source of randomness that fails gives.
pub open spec fn nothing_drawn() -> DrawView {
    DrawView { token: None, nonce: None }
}

/// Where a step gets what it asks chance for: from what was drawn before, or from the source of
/// randomness at the time it asks.
#[derive(Clone, Copy, Debug)]
pub enum Chance {
    Given(Draw),
    Fresh,
}

impl Chance {
    /// The bytes that name a staging file may be the given ones.
    pub open spec fn allows_token(self, token: Option<Seq<u8>>) -> bool {
        match self {
            Chance::Given(draw) => token == draw@.token,
            Chance::Fresh => token matches Some(bytes) ==> bytes.len() == 16,
        }
    }

    /// The nonce may be the given one.
    pub open spec fn allows_nonce(self, nonce: Option<Seq<u8>>) -> bool {
        match self {
            Chance::Given(draw) => nonce == draw@.nonce,
            Chance::Fresh => nonce matches Some(bytes) ==> bytes.len() == 24,
        }
    }

    /// What a step gets may be what the given draw holds.
    pub open spec fn allows(self, draw: DrawView) -> bool {
        self.allows_token(draw.token) && self.allows_nonce(draw.nonce)
    }

    /// What a step gets that asks for nothing.
    pub open spec fn unasked(self) -> DrawView {
        match self {
            Chance::Given(draw) => draw@,
            Chance::Fresh => nothing_drawn(),
        }
    }

    /// The bytes that name a staging file.
    pub fn token(&self) -> (token: Option<[u8; 16]>)
        ensures
            self.allows_token(drawn_bytes(token)),
    {
        match self {
            Chance::Given(draw) => draw.token,
            Chance::Fresh => match random_bytes(16) {
                Some(bytes) => Some(token_of(bytes.as_slice())),
                None => None,
            },
        }
    }
}

fn token_of(bytes: &[u8]) -> (token: [u8; 16])
    requires
        bytes@.len() == 16,
    ensures
        token@ == bytes@,
{
    let token: [u8; 16] = [
        bytes[0],
        bytes[1],
        bytes[2],
        bytes[3],
        bytes[4],
        bytes[5],
        bytes[6],
        bytes[7],
        bytes[8],
        bytes[9],
        bytes[10],
        bytes[11],
        bytes[12],
        bytes[13],
        bytes[14],
        bytes[15],
    ];
    assert(token@ =~= bytes@);
    token
}

} // verus!
