//! The read / hash / submit core of a proof-of-capacity miner.
//!
//! Plot files hold pre-computed hashes, laid out so that one scoop of every
//! nonce is contiguous on disk. For each block the miner reads that block's
//! scoop from every plot, hands the bytes to hashing workers and submits the
//! best deadline it finds. This crate holds the rules of that pipeline:
//!
//! - `plot`: how a plot's name is read, where a scoop lies in the file and
//!   how it is cut into chunks as large as a buffer;
//! - `order`, `reader`, `task`: how plots are sorted into drives and put in
//!   order, and how the reader of one drive walks its plots in a round;
//! - `buffer`: how many buffers there are and where they can be;
//! - `worker`: what a worker reports of a buffer;
//! - `miner`: how the control loop begins a round, keeps the best deadline
//!   and knows when the round is over.
//!
//! Nothing here touches a file, a socket or a thread. Callers perform the
//! seeks, reads and sends that these functions plan, and report back what
//! happened. The random number that picks a scoop to wake a drive with and
//! the stopwatch that times a round come from outside crates; nothing is
//! proved of them, and little is assumed.

pub mod buffer;
mod clock;
pub mod decimal;
pub mod fields;
pub mod miner;
pub mod order;
pub mod plot;
mod random;
pub mod reader;
pub mod task;
pub mod worker;
