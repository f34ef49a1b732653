//! The fixed exit-code vocabulary of receipts, and the total mapping from
//! dispatch-level failure reasons onto it.
//!
//! A dispatch failure means the engine could not deliver a call to its target
//! at all, as opposed to the target failing during its own execution. Each
//! such reason is folded onto an exit code that persists on chain.

use vstd::prelude::*;

verus! {

/// Exit code of a call that completed successfully.
pub const EXIT_OK: u32 = 0;

/// Exit code recorded when a call could not be delivered to its receiver.
pub const SYS_INVALID_RECEIVER: u32 = 5;

/// Exit code recorded when the sender lacked the funds to make the call.
pub const SYS_INSUFFICIENT_FUNDS: u32 = 6;

/// Exit code shared by every remaining dispatch failure.
pub const SYS_ASSERTION_FAILED: u32 = 10;

/// The closed set of reasons for which the engine can fail to dispatch a
/// call. A new reason is an explicit extension point: it must be added here
/// and given an arm in the mapping, never folded into a silent default.
#[derive(Clone, Copy, Debug, PartialEq, Eq, Structural)]
pub enum DispatchFailure {
    InsufficientFunds,
    NotFound,
    IllegalArgument,
    IllegalOperation,
    LimitExceeded,
    AssertionFailed,
    InvalidHandle,
    IllegalCid,
    IllegalCodec,
    Serialization,
    Forbidden,
}

/// The exit code a dispatch failure is recorded under: insufficient funds and
/// an unknown receiver each keep a code of their own; every other reason in
/// the closed set shares the assertion-failure code.
pub open spec fn exit_code_for(reason: DispatchFailure) -> u32 {
    match reason {
        DispatchFailure::InsufficientFunds => SYS_INSUFFICIENT_FUNDS,
        DispatchFailure::NotFound => SYS_INVALID_RECEIVER,
        DispatchFailure::IllegalArgument => SYS_ASSERTION_FAILED,
        DispatchFailure::IllegalOperation => SYS_ASSERTION_FAILED,
        DispatchFailure::LimitExceeded => SYS_ASSERTION_FAILED,
        DispatchFailure::AssertionFailed => SYS_ASSERTION_FAILED,
        DispatchFailure::InvalidHandle => SYS_ASSERTION_FAILED,
        DispatchFailure::IllegalCid => SYS_ASSERTION_FAILED,
        DispatchFailure::IllegalCodec => SYS_ASSERTION_FAILED,
        DispatchFailure::Serialization => SYS_ASSERTION_FAILED,
        DispatchFailure::Forbidden => SYS_ASSERTION_FAILED,
    }
}

/// Maps a dispatch-failure reason to its exit code.
pub fn map_dispatch_failure(reason: DispatchFailure) -> (code: u32)
    ensures
        code == exit_code_for(reason),
{
    match reason {
        DispatchFailure::InsufficientFunds => SYS_INSUFFICIENT_FUNDS,
        DispatchFailure::NotFound => SYS_INVALID_RECEIVER,
        DispatchFailure::IllegalArgument => SYS_ASSERTION_FAILED,
        DispatchFailure::IllegalOperation => SYS_ASSERTION_FAILED,
        DispatchFailure::LimitExceeded => SYS_ASSERTION_FAILED,
        DispatchFailure::AssertionFailed => SYS_ASSERTION_FAILED,
        DispatchFailure::InvalidHandle => SYS_ASSERTION_FAILED,
        DispatchFailure::IllegalCid => SYS_ASSERTION_FAILED,
        DispatchFailure::IllegalCodec => SYS_ASSERTION_FAILED,
        DispatchFailure::Serialization => SYS_ASSERTION_FAILED,
        DispatchFailure::Forbidden => SYS_ASSERTION_FAILED,
    }
}

/// Law: the exit mapping is total over the closed reason set and
/// deterministic (it is a function of the reason alone); insufficient funds
/// and an unknown receiver each map to a distinct code of their own, and all
/// remaining reasons share the one assertion-failure code.
pub proof fn lemma_exit_mapping_buckets()
    ensures
        exit_code_for(DispatchFailure::InsufficientFunds) == SYS_INSUFFICIENT_FUNDS,
        exit_code_for(DispatchFailure::NotFound) == SYS_INVALID_RECEIVER,
        SYS_INSUFFICIENT_FUNDS != SYS_INVALID_RECEIVER,
        SYS_INSUFFICIENT_FUNDS != SYS_ASSERTION_FAILED,
        SYS_INVALID_RECEIVER != SYS_ASSERTION_FAILED,
        forall|r: DispatchFailure|
            r != DispatchFailure::InsufficientFunds && r != DispatchFailure::NotFound
                ==> #[trigger] exit_code_for(r) == SYS_ASSERTION_FAILED,
        forall|r: DispatchFailure| #[trigger] exit_code_for(r) != EXIT_OK,
{
}

} // verus!
