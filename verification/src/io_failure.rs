//! Failures of the operating system, as plain values.

use vstd::prelude::*;

use crate::error::{
    detached_error, ErrorView, Operation, ProtocolStage, RetryAdvice, StorageError,
    StorageErrorKind,
};

verus! {

/// Too many open files in the process.
pub const EMFILE: i32 = 24;

/// Too many open files in the system.
pub const ENFILE: i32 = 23;

/// How often an interrupted call is repeated.
pub const INTERRUPTED_RETRY_LIMIT: u32 = 8;

/// How often a call that would block is repeated.
pub const TRANSIENT_RETRY_LIMIT: u32 = 3;

/// What kept a call from succeeding.
#[derive(Clone, Copy, Debug, PartialEq, Eq, Structural)]
pub enum IoCause {
    Interrupted,
    WouldBlock,
    NotFound,
    AlreadyExists,
    NotADirectory,
    UnexpectedEnd,
    StorageFull,
    /// A symbolic link stood where none may.
    TooManyLinks,
    Other,
}

/// A failed call: its cause, and the code of the operating system where there was one.
#[derive(Clone, Copy, Debug)]
pub struct IoFailure {
    pub cause: IoCause,
    pub os_code: Option<i32>,
}

impl IoFailure {
    /// The call may succeed if it is simply made again.
    pub open spec fn transient(self) -> bool {
        self.cause == IoCause::Interrupted || self.cause == IoCause::WouldBlock
    }

    pub fn is_transient(&self) -> (transient: bool)
        ensures
            transient == self.transient(),
    {
        self.cause == IoCause::Interrupted || self.cause == IoCause::WouldBlock
    }

    pub open spec fn has_code(self, code: i32) -> bool {
        self.os_code == Some(code)
    }

    pub fn is_code(&self, code: i32) -> (is: bool)
        ensures
            is == self.has_code(code),
    {
        match self.os_code {
            Some(found) => found == code,
            None => false,
        }
    }
}

/// How often a call was repeated for either transient cause since it last made progress.
#[derive(Clone, Copy, Debug, PartialEq, Eq, Structural)]
pub struct RetryCount {
    pub interrupted: u32,
    pub transient: u32,
}

impl RetryCount {
    pub open spec fn fresh() -> RetryCount {
        RetryCount { interrupted: 0, transient: 0 }
    }

    /// The counts after one more repetition, or `None` where the call is given up.
    pub open spec fn after(self, failure: IoFailure) -> Option<RetryCount> {
        if failure.cause == IoCause::Interrupted && self.interrupted < INTERRUPTED_RETRY_LIMIT {
            Some(RetryCount { interrupted: (self.interrupted + 1) as u32, ..self })
        } else if failure.cause == IoCause::WouldBlock && self.transient < TRANSIENT_RETRY_LIMIT {
            Some(RetryCount { transient: (self.transient + 1) as u32, ..self })
        } else {
            None
        }
    }

    pub fn new() -> (count: Self)
        ensures
            count == RetryCount::fresh(),
    {
        RetryCount { interrupted: 0, transient: 0 }
    }

    /// Counts one more repetition and says whether the call is to be repeated.
    pub fn retry(&mut self, failure: &IoFailure) -> (retry: bool)
        ensures
            match old(self).after(*failure) {
                Some(count) => retry && *final(self) == count,
                None => !retry && *final(self) == *old(self),
            },
    {
        if failure.cause == IoCause::Interrupted && self.interrupted < INTERRUPTED_RETRY_LIMIT {
            self.interrupted = self.interrupted + 1;
            true
        } else if failure.cause == IoCause::WouldBlock && self.transient < TRANSIENT_RETRY_LIMIT {
            self.transient = self.transient + 1;
            true
        } else {
            false
        }
    }
}

/// A call that keeps failing without progress is given up: no more than the two limits
/// together are counted.
pub proof fn law_retries_are_bounded(count: RetryCount, failure: IoFailure)
    requires
        count.interrupted <= INTERRUPTED_RETRY_LIMIT,
        count.transient <= TRANSIENT_RETRY_LIMIT,
        count.after(failure) is Some,
    ensures
        ({
            let next = count.after(failure)->0;
            &&& next.interrupted <= INTERRUPTED_RETRY_LIMIT
            &&& next.transient <= TRANSIENT_RETRY_LIMIT
            &&& next.interrupted + next.transient == count.interrupted + count.transient + 1
        }),
{
}

/// A failed call while a database is opened.
pub open spec fn open_io_view(failure: IoFailure) -> ErrorView {
    detached_error(
        StorageErrorKind::Io,
        Operation::Open,
        ProtocolStage::Preflight,
        None,
        RetryAdvice::FixEnvironmentAndReopen,
    ).with_os_code(failure.os_code)
}

pub fn open_io_error(failure: IoFailure) -> (error: StorageError)
    ensures
        error@ == open_io_view(failure),
{
    let mut error = StorageError::codec_error(
        StorageErrorKind::Io,
        Operation::Open,
        ProtocolStage::Preflight,
        None,
        RetryAdvice::FixEnvironmentAndReopen,
    );
    error.os_code = failure.os_code;
    error
}

/// A call is made again exactly where it was interrupted, up to eight times, and where it would
/// have had to wait, up to three times; only what it is repeated for is counted.
pub proof fn law_only_passing_failures_are_repeated(count: RetryCount, failure: IoFailure)
    ensures
        ({
            let interrupted = failure.cause == IoCause::Interrupted;
            let waiting = failure.cause == IoCause::WouldBlock;
            &&& failure.transient() == (interrupted || waiting)
            &&& count.after(failure) is Some <==> (interrupted && count.interrupted < 8) || (
            waiting && count.transient < 3)
            &&& count.after(failure) matches Some(next) ==> {
                &&& next.interrupted - count.interrupted == (if interrupted {
                    1int
                } else {
                    0
                })
                &&& next.transient - count.transient == (if waiting {
                    1int
                } else {
                    0
                })
            }
            &&& RetryCount::fresh().interrupted == 0 && RetryCount::fresh().transient == 0
        }),
{
}

/// A call that fails while a database is opened is a matter of the environment, with its code.
pub proof fn law_failed_call_of_an_opening(failure: IoFailure)
    ensures
        open_io_view(failure).kind == StorageErrorKind::Io,
        open_io_view(failure).os_code == failure.os_code,
        open_io_view(failure).operation == Operation::Open,
        open_io_view(failure).write_outcome is None,
        open_io_view(failure).retry_advice == RetryAdvice::FixEnvironmentAndReopen,
{
}

} // verus!
