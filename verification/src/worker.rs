//! The workers: what they make of a filled buffer.

use crate::miner::UNBOUNDED;
use crate::plot::SCOOP_SIZE;
use crate::reader::ReadReply;
use vstd::prelude::*;

verus! {

/// What a worker found in one buffer.
#[derive(Clone, Copy, Debug, PartialEq, Eq)]
pub struct NonceData {
    /// The block that the buffer was read for.
    pub height: u64,
    /// The best nonce in the buffer.
    pub nonce: u64,
    /// That nonce's deadline, not yet divided by the base target.
    pub deadline: u64,
    /// Whether the buffer was the last of its reader in its round.
    pub reader_task_processed: bool,
}

/// How many scoops a reply holds: the nonces that the hash engine is to look at.
pub fn nonce_count(reply: &ReadReply) -> (n: u64)
    ensures
        n == reply.len as nat / SCOOP_SIZE as nat,
{
    reply.len as u64 / SCOOP_SIZE
}

/// The report on a reply, given the best nonce and its deadline as the hash
/// engine found them. Where the engine failed, the report carries no nonce
/// and the worst of all deadlines. Either way it passes on the block of the
/// reply and whether the reply was its reader's last.
pub fn report(reply: &ReadReply, best: Option<(u64, u64)>) -> (data: NonceData)
    ensures
        data.height == reply.height,
        data.reader_task_processed == reply.finished,
        match best {
            Some((nonce, deadline)) => data.nonce == nonce && data.deadline == deadline,
            None => data.nonce == 0 && data.deadline == UNBOUNDED,
        },
{
    match best {
        Some((nonce, deadline)) => NonceData {
            height: reply.height,
            nonce,
            deadline,
            reader_task_processed: reply.finished,
        },
        None => NonceData {
            height: reply.height,
            nonce: 0,
            deadline: UNBOUNDED,
            reader_task_processed: reply.finished,
        },
    }
}

/// The core that worker number `worker` is pinned to: workers go round the cores.
pub fn pinned_core(worker: usize, cores: usize) -> (core: usize)
    requires
        cores > 0,
    ensures
        core == worker % cores,
{
    worker % cores
}

} // verus!
