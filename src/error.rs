//! The errors of the library.

use vstd::prelude::*;

verus! {

/// A failure of the remote ledger or of the cache, with its description.
#[derive(Debug, PartialEq, Eq)]
pub enum SolanaError {
    /// The remote call failed in transport or on the remote side.
    ClientError(String),
    /// Reading or writing a local resource failed.
    IoError(String),
    /// The cache refused an insert.
    CacheInsertError(String),
    /// The remote answered with something unusable.
    RpcError(String),
}

/// A failure of the query server.
#[derive(Debug, PartialEq, Eq)]
pub enum WebError {
    /// Binding or serving the listening socket failed.
    IoError(String),
}

/// The outcome of a supervised task that failed.
#[derive(Debug, PartialEq, Eq)]
pub enum CliError {
    WebError(WebError),
    SolanaError(SolanaError),
}

} // verus!
