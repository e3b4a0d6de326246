//! What can go wrong while a pool is read from or kept up with the chain.
use vstd::prelude::*;

use crate::word::B256;

verus! {

/// Why a log is not the event that was expected.
#[derive(Debug, Clone, Copy, PartialEq, Eq)]
pub enum DecodeError {
    /// The log has more or fewer topics than the event.
    TopicCount,
    /// The first topic is not the event's signature hash.
    SignatureHash,
    /// The data ends before the event's last field.
    Overrun,
}

/// Errors of the liquidity accounting.
#[derive(Debug, Clone, Copy, PartialEq, Eq)]
pub enum UniswapV3Error {
    /// A liquidity change leaves the range of the amounts it applies to.
    LiquidityOutOfRange,
}

/// Errors of a pool of the singleton pool manager.
#[derive(Debug, Clone, Copy, PartialEq, Eq)]
pub enum UniswapV4Error {
    /// A log that is none of the events a pool follows.
    UnknownEventSignature(B256),
    /// The pool has not been initialized.
    NotInitialized,
}

/// Errors of the library.
#[derive(Debug, Clone, Copy, PartialEq, Eq)]
pub enum AMMError {
    UniswapV3Error(UniswapV3Error),
    UniswapV4Error(UniswapV4Error),
    DecodeError(DecodeError),
}

} // verus!
