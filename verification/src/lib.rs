//! Core of an interactive, two-party transaction-negotiation wallet.
//!
//! A transaction is built incrementally by two participants who exchange a
//! shared, partially-signed document (a slate) over one of several
//! interchangeable transports.  This crate holds the negotiation logic: the
//! slate document and its invariants, the sender-side state machine from
//! draft through output reservation, exchange, finalization and broadcast,
//! the receiver-side countersigning workflow, the relay-listener step
//! function, the transport selection rule, and a wire codec for slates.
//!
//! Everything that talks to the outside world (wallet storage on disk, the
//! chain node, network transports, key derivation) is a collaborator: the
//! functions here take its answers as plain values and decide what happens
//! next.

pub mod orchestrator;
pub mod codec;
pub mod config;
pub mod ids;
pub mod listener;
pub mod receiver;
pub mod slate;
pub mod store;
pub mod transport;

use vstd::prelude::*;

verus! {

/// Default minimum number of confirmations required on spent outputs.
pub const MINIMUM_CONFIRMATIONS: u64 = 10;

/// The error taxonomy of the wallet core.
///
/// Every externally visible failure is one of these variants; the
/// human-readable message is produced by [`WalletError::describe`].
#[derive(Clone, Copy, Debug, PartialEq, Eq, Structural)]
pub enum WalletError {
    /// Malformed or unsupported configuration.
    ConfigError,
    /// No output subset satisfies the requested amount plus fee.
    InsufficientFunds,
    /// Unreachable counterparty, timeout, or malformed reply.
    TransportError,
    /// Signature or message verification failure.
    ValidationError,
    /// Operating on a transaction in an incompatible state.
    StateError,
    /// The node rejected the finalized transaction.
    BroadcastError,
    /// Backend storage failure.
    StorageError,
}

/// The human-readable message of each error variant.
pub open spec fn error_text(e: WalletError) -> Seq<char> {
    match e {
        WalletError::ConfigError => "malformed or unsupported configuration"@,
        WalletError::InsufficientFunds => "insufficient funds"@,
        WalletError::TransportError => "transport failure or malformed reply"@,
        WalletError::ValidationError => "message verification failed"@,
        WalletError::StateError => "transaction is in an incompatible state"@,
        WalletError::BroadcastError => "node rejected the transaction"@,
        WalletError::StorageError => "storage backend failure"@,
    }
}

impl WalletError {
    /// The structured error's human-readable message.
    pub fn describe(&self) -> (m: String)
        ensures
            m@ == error_text(*self),
    {
        match self {
            WalletError::ConfigError => "malformed or unsupported configuration".to_owned(),
            WalletError::InsufficientFunds => "insufficient funds".to_owned(),
            WalletError::TransportError => "transport failure or malformed reply".to_owned(),
            WalletError::ValidationError => "message verification failed".to_owned(),
            WalletError::StateError => "transaction is in an incompatible state".to_owned(),
            WalletError::BroadcastError => "node rejected the transaction".to_owned(),
            WalletError::StorageError => "storage backend failure".to_owned(),
        }
    }
}

} // verus!
