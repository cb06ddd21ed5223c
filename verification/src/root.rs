//! The root directory of a database: what may lie in it, and what is answered when something
//! else does.

use vstd::prelude::*;

use crate::claims::ClaimTable;
use crate::error::{
    detached_error, ErrorView, Operation, ProtocolStage, Result, RetryAdvice, StorageError,
    StorageErrorKind,
};
use crate::io_failure::{open_io_error, open_io_view, IoCause, IoFailure};
use crate::vlog::file_set::FileIdentity;

verus! {

/// What lies under a name.
#[derive(Clone, Copy, Debug, PartialEq, Eq, Structural)]
pub enum ManagedEntryKind {
    Missing,
    RegularFile { len: u64 },
    Directory,
    Symlink,
    Other,
}

/// An error while a database is being opened, before it is looked into.
pub open spec fn open_preflight_view(kind: StorageErrorKind) -> ErrorView {
    detached_error(
        kind,
        Operation::Open,
        ProtocolStage::Preflight,
        None,
        match kind {
            StorageErrorKind::NotFound => RetryAdvice::DoNotRetry,
            StorageErrorKind::InvalidArgument => RetryAdvice::FixRequestAndRetrySameInstance,
            StorageErrorKind::Busy | StorageErrorKind::ResourceExhausted =>
                RetryAdvice::RetrySameInstance,
            _ => RetryAdvice::RestoreOrRepair,
        },
    )
}

fn open_preflight_error(kind: StorageErrorKind) -> (error: StorageError)
    ensures
        error@ == open_preflight_view(kind),
{
    let retry_advice = match kind {
        StorageErrorKind::NotFound => RetryAdvice::DoNotRetry,
        StorageErrorKind::InvalidArgument => RetryAdvice::FixRequestAndRetrySameInstance,
        StorageErrorKind::Busy | StorageErrorKind::ResourceExhausted =>
            RetryAdvice::RetrySameInstance,
        _ => RetryAdvice::RestoreOrRepair,
    };
    StorageError::codec_error(kind, Operation::Open, ProtocolStage::Preflight, None, retry_advice)
}

/// Something lies in the directory that does not belong there, or is of the wrong kind.
pub fn layout_error() -> (error: StorageError)
    ensures
        error@ == open_preflight_view(StorageErrorKind::InvalidLayout),
{
    open_preflight_error(StorageErrorKind::InvalidLayout)
}

pub fn not_found_error() -> (error: StorageError)
    ensures
        error@ == open_preflight_view(StorageErrorKind::NotFound),
{
    open_preflight_error(StorageErrorKind::NotFound)
}

pub fn invalid_argument_error() -> (error: StorageError)
    ensures
        error@ == open_preflight_view(StorageErrorKind::InvalidArgument),
{
    open_preflight_error(StorageErrorKind::InvalidArgument)
}

pub fn busy_error() -> (error: StorageError)
    ensures
        error@ == open_preflight_view(StorageErrorKind::Busy),
{
    open_preflight_error(StorageErrorKind::Busy)
}

pub fn inventory_memory_error() -> (error: StorageError)
    ensures
        error@ == open_preflight_view(StorageErrorKind::ResourceExhausted),
{
    open_preflight_error(StorageErrorKind::ResourceExhausted)
}

/// What lies under a name, from what the operating system said of it.
pub fn inspected(found: std::result::Result<ManagedEntryKind, IoFailure>) -> (result: Result<
    ManagedEntryKind,
>)
    ensures
        match found {
            Ok(kind) => result matches Ok(seen) && seen == kind,
            Err(failure) => if failure.cause == IoCause::NotFound {
                result matches Ok(seen) && seen == ManagedEntryKind::Missing
            } else {
                result matches Err(error) && error@ == open_io_view(failure)
            },
        },
{
    match found {
        Ok(kind) => Ok(kind),
        Err(failure) => if failure.cause == IoCause::NotFound {
            Ok(ManagedEntryKind::Missing)
        } else {
            Err(open_io_error(failure))
        },
    }
}

/// Whether a regular file that may be absent is there.
pub fn regular_or_missing(kind: ManagedEntryKind) -> (result: Result<bool>)
    ensures
        match kind {
            ManagedEntryKind::Missing => result matches Ok(there) && !there,
            ManagedEntryKind::RegularFile { .. } => result matches Ok(there) && there,
            _ => result matches Err(error) && error@ == open_preflight_view(
                StorageErrorKind::InvalidLayout,
            ),
        },
{
    match kind {
        ManagedEntryKind::Missing => Ok(false),
        ManagedEntryKind::RegularFile { .. } => Ok(true),
        _ => Err(layout_error()),
    }
}

/// Whether a directory that may be absent is there.
pub fn directory_or_missing(kind: ManagedEntryKind) -> (result: Result<bool>)
    ensures
        match kind {
            ManagedEntryKind::Missing => result matches Ok(there) && !there,
            ManagedEntryKind::Directory => result matches Ok(there) && there,
            _ => result matches Err(error) && error@ == open_preflight_view(
                StorageErrorKind::InvalidLayout,
            ),
        },
{
    match kind {
        ManagedEntryKind::Missing => Ok(false),
        ManagedEntryKind::Directory => Ok(true),
        _ => Err(layout_error()),
    }
}

/// An entry is a regular file, of an expected length where there is one.
pub open spec fn is_regular(kind: ManagedEntryKind, expected_len: Option<u64>) -> bool {
    kind matches ManagedEntryKind::RegularFile { len } && (expected_len matches Some(expected)
        ==> expected == len)
}

pub fn require_regular(kind: ManagedEntryKind, expected_len: Option<u64>) -> (result: Result<()>)
    ensures
        match result {
            Ok(_) => is_regular(kind, expected_len),
            Err(error) => !is_regular(kind, expected_len) && error@ == open_preflight_view(
                StorageErrorKind::InvalidLayout,
            ),
        },
{
    match kind {
        ManagedEntryKind::RegularFile { len } => match expected_len {
            Some(expected) => if expected == len {
                Ok(())
            } else {
                Err(layout_error())
            },
            None => Ok(()),
        },
        _ => Err(layout_error()),
    }
}

pub fn require_directory(kind: ManagedEntryKind) -> (result: Result<()>)
    ensures
        match result {
            Ok(_) => kind is Directory,
            Err(error) => !(kind is Directory) && error@ == open_preflight_view(
                StorageErrorKind::InvalidLayout,
            ),
        },
{
    match kind {
        ManagedEntryKind::Directory => Ok(()),
        _ => Err(layout_error()),
    }
}

/// What is answered when the root cannot be opened as a directory.
pub fn root_open_error(failure: IoFailure) -> (error: StorageError)
    ensures
        error@ == (if failure.cause == IoCause::NotADirectory {
            open_preflight_view(StorageErrorKind::InvalidLayout)
        } else {
            open_io_view(failure)
        }),
{
    if failure.cause == IoCause::NotADirectory {
        layout_error()
    } else {
        open_io_error(failure)
    }
}

/// What is answered when the lock of the operating system cannot be had.
pub fn lock_error(failure: IoFailure) -> (error: StorageError)
    ensures
        error@ == (if failure.cause == IoCause::WouldBlock {
            open_preflight_view(StorageErrorKind::Busy)
        } else {
            open_io_view(failure)
        }),
{
    if failure.cause == IoCause::WouldBlock {
        busy_error()
    } else {
        open_io_error(failure)
    }
}

/// Reserves a root inside the process, unless it is reserved.
pub fn reserve_root(table: &mut ClaimTable, root: FileIdentity) -> (result: Result<()>)
    ensures
        final(table)@ == old(table)@.insert(root),
        match result {
            Ok(_) => !old(table)@.contains(root),
            Err(error) => old(table)@.contains(root) && error@ == open_preflight_view(
                StorageErrorKind::Busy,
            ),
        },
{
    if table.claim(root) {
        Ok(())
    } else {
        Err(busy_error())
    }
}

/// A root that was opened is the directory that was reserved.
pub fn ensure_root_identity(is_directory: bool, found: FileIdentity, expected: FileIdentity) -> (result:
    Result<()>)
    ensures
        match result {
            Ok(_) => is_directory && found == expected,
            Err(error) => !(is_directory && found == expected) && error@ == open_preflight_view(
                StorageErrorKind::InvalidLayout,
            ),
        },
{
    if !is_directory || found != expected {
        return Err(layout_error());
    }
    Ok(())
}

/// What is wrong with a directory that is to be opened is told as it is. The caller may try again
/// as it is only where something is busy or exhausted, and is to mend the request only where that
/// is at fault.
pub proof fn law_refused_directory_is_advised(kind: StorageErrorKind)
    ensures
        ({
            let error = open_preflight_view(kind);
            &&& error.kind == kind && error.operation == Operation::Open
            &&& error.protocol_stage == ProtocolStage::Preflight
            &&& error.write_outcome is None && error.instance_state is None
            &&& error.retry_advice == RetryAdvice::RetrySameInstance <==> kind
                == StorageErrorKind::Busy || kind == StorageErrorKind::ResourceExhausted
            &&& error.retry_advice == RetryAdvice::DoNotRetry <==> kind
                == StorageErrorKind::NotFound
            &&& error.retry_advice == RetryAdvice::FixRequestAndRetrySameInstance <==> kind
                == StorageErrorKind::InvalidArgument
            &&& kind == StorageErrorKind::Corruption || kind == StorageErrorKind::InvalidLayout
                || kind == StorageErrorKind::Io || kind == StorageErrorKind::IncompatibleFormat
                ==> error.retry_advice == RetryAdvice::RestoreOrRepair
        }),
{
}

/// A file is taken at any length where none is asked for, and else at that length alone. Nothing
/// else is taken for a file.
pub proof fn law_only_a_file_is_regular(kind: ManagedEntryKind, len: u64, expected: u64)
    ensures
        is_regular(ManagedEntryKind::RegularFile { len }, None),
        is_regular(ManagedEntryKind::RegularFile { len }, Some(expected)) <==> len == expected,
        is_regular(kind, None) || is_regular(kind, Some(expected)) ==> kind is RegularFile,
{
}

} // verus!
