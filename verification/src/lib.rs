//! Control core of a fixed-size worker pool: the messages that travel from
//! submitters to workers, the FIFO dispatch queue, the worker lifecycle and
//! the shutdown protocol.
pub mod channel;
pub mod message;
pub mod pool;
pub mod state;
pub mod trace;
pub mod worker;
