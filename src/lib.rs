//! Two independent stores driven by a call interface: a list of tasks and a
//! per-account ledger of fungible balances with minting and transfer.
//!
//! The host that runs these stores authenticates each call; its caller is
//! handed to the operations that need it as an ordinary parameter, and the
//! host's durable storage is left to the host.

pub mod account;
pub mod todo_list;
pub mod token;
