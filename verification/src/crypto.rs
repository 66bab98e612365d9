use vstd::prelude::*;
use crate::addr::{Addr, addr_xdr, append_xdr};
use crate::types::Choice;

verus! {

/// The contract environment of the Soroban host.
#[verifier::external_type_specification]
#[verifier::external_body]
pub struct ExEnv(soroban_sdk::Env);

/// The SHA-256 digest of a byte string.
pub uninterp spec fn sha256_of(data: Seq<u8>) -> Seq<u8>;

/// Calls `soroban_sdk::crypto::Crypto::sha256` on `data`; the contract claims only
/// that the 32 bytes returned are the host's SHA-256 digest of `data`, a function of
/// `data` alone.
#[verifier::external_body]
fn sha256(env: &soroban_sdk::Env, data: &Vec<u8>) -> (d: [u8; 32])
    ensures
        d@ == sha256_of(data@),
{
    env.crypto().sha256(&soroban_sdk::Bytes::from_slice(env, data.as_slice())).to_array()
}

/// The byte that stands for a choice in a commitment.
pub open spec fn choice_byte(c: Choice) -> u8 {
    match c {
        Choice::Heads => 0u8,
        Choice::Tails => 1u8,
    }
}

/// What a player hashes to commit to `choice`: the choice byte, the nonce, then the
/// XDR encoding of the player's address.
pub open spec fn commitment_preimage(choice: Choice, nonce: [u8; 32], player: Addr) -> Seq<u8> {
    seq![choice_byte(choice)] + nonce@ + addr_xdr(player)
}

/// The commitment a player must have stored to reveal `choice` with `nonce`.
pub open spec fn commitment_of(choice: Choice, nonce: [u8; 32], player: Addr) -> Seq<u8> {
    sha256_of(commitment_preimage(choice, nonce, player))
}

/// Builds the bytes that are hashed into a commitment.
pub fn build_preimage(choice: Choice, nonce: &[u8; 32], player: &Addr) -> (v: Vec<u8>)
    ensures
        v@ == commitment_preimage(choice, *nonce, *player),
{
    let mut v: Vec<u8> = Vec::new();
    let b: u8 = match choice {
        Choice::Heads => 0,
        Choice::Tails => 1,
    };
    v.push(b);
    let mut i: usize = 0;
    while i < 32
        invariant
            0 <= i <= 32,
            v@ == seq![b] + nonce@.take(i as int),
        decreases 32 - i,
    {
        v.push(nonce[i]);
        assert(nonce@.take(i + 1) =~= nonce@.take(i as int).push(nonce@[i as int]));
        i = i + 1;
    }
    assert(nonce@.take(32) =~= nonce@);
    append_xdr(&mut v, player);
    assert(v@ =~= commitment_preimage(choice, *nonce, *player));
    v
}

/// The commitment digest for `choice`, `nonce` and `player`, computed by the host.
pub fn commitment_digest(env: &soroban_sdk::Env, choice: Choice, nonce: &[u8; 32], player: &Addr) -> (d: [u8; 32])
    ensures
        d@ == commitment_of(choice, *nonce, *player),
{
    let pre = build_preimage(choice, nonce, player);
    sha256(env, &pre)
}

/// The coin side a random word stands for: an even word is heads (`true`). The
/// caller draws the word from the host's generator.
pub fn coin_from(x: u64) -> (r: bool)
    ensures
        r == (x % 2 == 0),
{
    assert((x & 1 == 0) == (x % 2 == 0)) by (bit_vector);
    x & 1 == 0
}

} // verus!
