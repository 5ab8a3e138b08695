//! Verifiable-query proof pipeline.
//!
//! A client asks for a succinct proof that a read-only query against a smart
//! contract's state, at one specific historical block, satisfies an
//! application predicate (a token balance is at least a minimum, or the most
//! recent recorded transfer is large enough and carries an unused anti-replay
//! token). The proof is checked on chain against a compact journal, so the
//! verifier never re-runs the query.
//!
//! This crate holds the logic of that pipeline and its wire formats, with
//! machine-checked contracts: 256-bit words and their byte encoding, chain
//! addresses, the state bundle and the commitment derived from it, the query
//! predicates, the fixed-order guest input stream, the guest circuit's
//! decision, and the journal and seal codecs. The surrounding service (RPC
//! state assembly, HTTP, and the proving backend) performs I/O only and hands
//! plain values to this crate.

pub mod addr;
pub mod digest;
pub mod error;
pub mod inputs;
pub mod journal;
pub mod pipeline;
pub mod predicate;
pub mod receipt;
pub mod state;
pub mod word;
