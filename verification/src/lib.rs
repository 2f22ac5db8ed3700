//! The decisions of a Khora node: what a staker, a validator or a plain user
//! does with the messages, blocks, clocks and requests that reach it.
//!
//! Everything here is a function from plain values to plain values. Sockets,
//! files, the gossip network, the ledger's own cryptography and the graphical
//! interface live in the application, which performs the actions that these
//! functions return and hands their outcomes back.

pub mod bytes;
pub mod digest;
pub mod keys;
pub mod rules;
pub mod election;
pub mod wire;
pub mod net;
pub mod request;
pub mod console;
pub mod frame;
pub mod clock;
pub mod node;
pub mod block;
pub mod pool;
pub mod ring;
pub mod reset;
pub mod saved;
pub mod rounds;
pub mod outer;
pub mod user;
pub mod table;
pub mod staker;
pub mod reading;
