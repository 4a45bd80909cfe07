//! The mempool's side of consensus: what consensus asks of it, and which client
//! transactions enter it.

use crate::crypto::{split_transaction, transaction_valid, Digest, PublicKey};
use crate::primary::error::ConsensusResult;
use vstd::prelude::*;

verus! {

/// Round of a block.
pub type RoundNumber = u64;

/// What the mempool has to say about the payload of a block.
#[derive(Clone, Copy, Debug, PartialEq, Eq, Structural)]
pub enum PayloadStatus {
    Accept,
    Reject,
    Wait,
}

/// A block of the chain, as far as the mempool is told of it.
#[derive(Clone, Copy, Debug)]
pub struct Block {
    /// The digest of the payload.
    pub digest: Digest,
    pub round: RoundNumber,
}

/// A request of consensus to the mempool.
#[derive(Debug)]
pub enum ConsensusMempoolMessage {
    /// Send back a payload of at most this many bytes.
    Get(usize),
    /// Send back the status of the payload of a block.
    Verify(Block),
    /// Forget these payloads: the chain has reached the given round.
    Cleanup(Vec<Digest>, RoundNumber),
}

/// Words the requests of consensus to the mempool.
pub struct MempoolDriver;

impl MempoolDriver {
    /// A driver.
    pub fn new() -> (driver: Self) {
        MempoolDriver
    }

    /// Asks for a payload of at most `max` bytes.
    pub fn get(&self, max: usize) -> (message: ConsensusMempoolMessage)
        ensures
            message == ConsensusMempoolMessage::Get(max),
    {
        ConsensusMempoolMessage::Get(max)
    }

    /// Whether the payload of a block is available: always, since blocks carry
    /// their payload.
    pub fn verify(&self, _block: &Block) -> (result: ConsensusResult<bool>)
        ensures
            result == Ok::<bool, crate::primary::error::ConsensusError>(true),
    {
        Ok(true)
    }

    /// Asks to forget the payloads of four consecutive blocks.
    pub fn cleanup(&self, b0: &Block, b1: &Block, b2: &Block, block: &Block) -> (message:
        ConsensusMempoolMessage)
        ensures
            message matches ConsensusMempoolMessage::Cleanup(digests, round) && digests@ == seq![
                b0.digest,
                b1.digest,
                b2.digest,
                block.digest,
            ] && round == block.round,
    {
        let digests: Vec<Digest> = vec![b0.digest, b1.digest, b2.digest, block.digest];
        assert(digests@ =~= seq![b0.digest, b1.digest, b2.digest, block.digest]);
        ConsensusMempoolMessage::Cleanup(digests, block.round)
    }
}

/// Guards the entry of the mempool: lets in the transactions of one client.
pub struct Front {
    pub client_pub_key: PublicKey,
}

impl Front {
    /// A guard that lets in what `client_pub_key` signed.
    pub fn new(client_pub_key: PublicKey) -> (front: Self)
        ensures
            front.client_pub_key == client_pub_key,
    {
        Front { client_pub_key }
    }

    /// Whether a frame is a transaction that the client signed. The connection
    /// that brought any other frame is to be closed.
    pub fn admits(&self, frame: &[u8]) -> (admitted: bool)
        ensures
            admitted == transaction_valid(self.client_pub_key, frame@),
            frame@.len() >= 64 && frame@.last() >= 32 ==> !admitted,
    {
        if frame.len() < 64 {
            return false;
        }
        let (digest, signature) = split_transaction(frame);
        assert(signature@[63] == frame@.last());
        signature.verify(&digest, &self.client_pub_key).is_ok()
    }
}

} // verus!
