//! The files of the value log: their names, their catalog, the cache of open handles, and the
//! rules by which a file is opened and read.

use vstd::prelude::*;

use crate::error::{
    detached_error, ErrorView, Operation, ProtocolStage, Result, RetryAdvice, StorageError,
    StorageErrorKind,
};
use crate::io_failure::{IoCause, IoFailure, RetryCount, EMFILE, ENFILE};
use crate::vlog::file_map::{increasing, FileMap};
use crate::vlog::geometry::{decode_view, invalid_vlog_view, VLogGeometry, MAX_VLOG_FILE_ID};
use crate::vlog::header::{
    file_header_of_other_version, is_identifier, is_nonzero_uuid, lemma_file_header_layout,
    new_file_header, same_uuid, VLogFileHeader, PAGE_HEADER_ENCODED_LEN,
};
use crate::vlog::layout::LayoutPlanner;

verus! {

/// The identity of a file on disk.
#[derive(Clone, Copy, Debug, PartialEq, Eq, Structural)]
pub struct FileIdentity {
    pub device: u64,
    pub inode: u64,
}

/// What a file is on disk: whether it is a regular file, which one, and its length.
#[derive(Clone, Copy, Debug, PartialEq, Eq, Structural)]
pub struct FileFacts {
    pub is_regular: bool,
    pub identity: FileIdentity,
    pub len: u64,
}

/// An error as a read of a value sees it.
pub open spec fn seen_by_read(
    error: ErrorView,
    file_id: Option<u32>,
    offset: Option<u64>,
) -> ErrorView {
    error.seen_by(Operation::Get, ProtocolStage::Read).with_place(file_id, offset)
}

pub fn read_context(error: StorageError, file_id: Option<u32>, offset: Option<u64>) -> (seen:
    StorageError)
    ensures
        seen@ == seen_by_read(error@, file_id, offset),
{
    let mut seen = error;
    seen.operation = Operation::Get;
    seen.protocol_stage = ProtocolStage::Read;
    seen.write_outcome = None;
    seen.instance_state = None;
    seen.vlog_file_id = file_id;
    seen.vlog_offset = offset;
    seen
}

pub open spec fn read_corruption_view(file_id: u32, offset: Option<u64>) -> ErrorView {
    decode_view(StorageErrorKind::Corruption).with_place(Some(file_id), offset)
}

pub fn read_corruption(file_id: u32, offset: Option<u64>) -> (error: StorageError)
    ensures
        error@ == read_corruption_view(file_id, offset),
{
    let mut error = StorageError::codec_error(
        StorageErrorKind::Corruption,
        Operation::Get,
        ProtocolStage::Read,
        None,
        RetryAdvice::RestoreOrRepair,
    );
    error.vlog_file_id = Some(file_id);
    error.vlog_offset = offset;
    error
}

/// A failed call while a file is read. A transient cause exhausts a resource; the caller may
/// come again.
pub open spec fn read_io_view(file_id: u32, offset: Option<u64>, failure: IoFailure) -> ErrorView {
    detached_error(
        if failure.transient() {
            StorageErrorKind::ResourceExhausted
        } else {
            StorageErrorKind::Io
        },
        Operation::Get,
        ProtocolStage::Read,
        None,
        if failure.transient() {
            RetryAdvice::RetrySameInstance
        } else {
            RetryAdvice::FixEnvironmentAndReopen
        },
    ).with_os_code(failure.os_code).with_place(Some(file_id), offset)
}

pub fn read_io(file_id: u32, offset: Option<u64>, failure: IoFailure) -> (error: StorageError)
    ensures
        error@ == read_io_view(file_id, offset, failure),
{
    let (kind, retry_advice) = if failure.is_transient() {
        (StorageErrorKind::ResourceExhausted, RetryAdvice::RetrySameInstance)
    } else {
        (StorageErrorKind::Io, RetryAdvice::FixEnvironmentAndReopen)
    };
    let mut error = StorageError::codec_error(
        kind,
        Operation::Get,
        ProtocolStage::Read,
        None,
        retry_advice,
    );
    error.os_code = failure.os_code;
    error.vlog_file_id = Some(file_id);
    error.vlog_offset = offset;
    error
}

/// What is answered when a file cannot be opened: a missing file or a link in its place means
/// that the log is corrupt; the want of descriptors passes.
pub open spec fn open_error_view(file_id: u32, failure: IoFailure) -> ErrorView {
    if failure.cause == IoCause::NotFound || failure.cause == IoCause::TooManyLinks {
        read_corruption_view(file_id, None)
    } else {
        let passes = failure.has_code(EMFILE) || failure.has_code(ENFILE) || failure.transient();
        detached_error(
            if passes {
                StorageErrorKind::ResourceExhausted
            } else {
                StorageErrorKind::Io
            },
            Operation::Get,
            ProtocolStage::Read,
            None,
            if passes {
                RetryAdvice::RetrySameInstance
            } else {
                RetryAdvice::FixEnvironmentAndReopen
            },
        ).with_os_code(failure.os_code).with_place(Some(file_id), None)
    }
}

pub fn classify_open_error(file_id: u32, failure: IoFailure) -> (error: StorageError)
    ensures
        error@ == open_error_view(file_id, failure),
{
    if failure.cause == IoCause::NotFound || failure.cause == IoCause::TooManyLinks {
        return read_corruption(file_id, None);
    }
    let passes = failure.is_code(EMFILE) || failure.is_code(ENFILE) || failure.is_transient();
    let (kind, retry_advice) = if passes {
        (StorageErrorKind::ResourceExhausted, RetryAdvice::RetrySameInstance)
    } else {
        (StorageErrorKind::Io, RetryAdvice::FixEnvironmentAndReopen)
    };
    let mut error = StorageError::codec_error(
        kind,
        Operation::Get,
        ProtocolStage::Read,
        None,
        retry_advice,
    );
    error.os_code = failure.os_code;
    error.vlog_file_id = Some(file_id);
    error
}

/// What is answered when the guarded state of the cache was abandoned by a panic.
pub fn cache_internal_error() -> (error: StorageError)
    ensures
        error@ == detached_error(
            StorageErrorKind::StoragePoisoned,
            Operation::Get,
            ProtocolStage::Read,
            None,
            RetryAdvice::RestoreOrRepair,
        ),
{
    StorageError::codec_error(
        StorageErrorKind::StoragePoisoned,
        Operation::Get,
        ProtocolStage::Read,
        None,
        RetryAdvice::RestoreOrRepair,
    )
}

/// What is answered when the directory of the log cannot be opened.
pub fn directory_io(failure: IoFailure) -> (error: StorageError)
    ensures
        error@ == crate::io_failure::open_io_view(failure),
{
    crate::io_failure::open_io_error(failure)
}

/// The known files, each with its identity.
pub struct FileCatalog {
    files: FileMap<FileIdentity>,
}

impl View for FileCatalog {
    type V = Map<u32, FileIdentity>;

    closed spec fn view(&self) -> Map<u32, FileIdentity> {
        self.files@
    }
}

impl FileCatalog {
    pub fn new() -> (catalog: Self)
        ensures
            catalog@ == Map::<u32, FileIdentity>::empty(),
    {
        FileCatalog { files: FileMap::new() }
    }

    /// The identity under which a file is known.
    pub fn identity(&self, file_id: u32) -> (result: Result<FileIdentity>)
        ensures
            match result {
                Ok(identity) => self@.dom().contains(file_id) && self@[file_id] == identity,
                Err(error) => !self@.dom().contains(file_id) && error@ == read_corruption_view(
                    file_id,
                    None,
                ),
            },
    {
        match self.files.get(file_id) {
            Some(identity) => Ok(identity),
            None => Err(read_corruption(file_id, None)),
        }
    }

    /// A file can be made known: it has a number, is regular, and is not known as another.
    pub open spec fn accepts(catalog: Map<u32, FileIdentity>, file_id: u32, facts: FileFacts) -> bool {
        &&& file_id <= MAX_VLOG_FILE_ID
        &&& facts.is_regular
        &&& catalog.dom().contains(file_id) ==> catalog[file_id] == facts.identity
    }

    /// Makes a file known.
    pub fn register(&mut self, file_id: u32, facts: FileFacts) -> (result: Result<()>)
        ensures
            match result {
                Ok(_) => FileCatalog::accepts(old(self)@, file_id, facts) && final(self)@ == old(
                    self,
                )@.insert(file_id, facts.identity),
                Err(error) => {
                    &&& !FileCatalog::accepts(old(self)@, file_id, facts)
                    &&& final(self)@ == old(self)@
                    &&& error@ == read_corruption_view(file_id, None)
                },
            },
    {
        if file_id > MAX_VLOG_FILE_ID || !facts.is_regular {
            return Err(read_corruption(file_id, None));
        }
        match self.files.get(file_id) {
            Some(identity) => {
                if identity != facts.identity {
                    return Err(read_corruption(file_id, None));
                }
            },
            None => {},
        }
        self.files.insert(file_id, facts.identity);
        Ok(())
    }

    /// Forgets a file.
    pub fn unregister(&mut self, file_id: u32)
        ensures
            final(self)@ == old(self)@.remove(file_id),
    {
        self.files.remove(file_id);
    }

    /// An open file is the one that is known under a number.
    pub open spec fn is_known(catalog: Map<u32, FileIdentity>, file_id: u32, facts: FileFacts) -> bool {
        catalog.dom().contains(file_id) && facts.is_regular && catalog[file_id] == facts.identity
    }

    /// Checks that an open file is the one that is known under a number.
    pub fn verify(&self, file_id: u32, facts: FileFacts) -> (result: Result<()>)
        ensures
            match result {
                Ok(_) => FileCatalog::is_known(self@, file_id, facts),
                Err(error) => !FileCatalog::is_known(self@, file_id, facts) && error@
                    == read_corruption_view(file_id, None),
            },
    {
        let expected = self.identity(file_id)?;
        if !facts.is_regular || facts.identity != expected {
            return Err(read_corruption(file_id, None));
        }
        Ok(())
    }

    /// The numbers of the known files, in increasing order.
    pub fn file_ids(&self) -> (file_ids: Vec<u32>)
        ensures
            increasing(file_ids@),
            forall|file_id: u32| file_ids@.contains(file_id) == self@.dom().contains(file_id),
    {
        self.files.file_ids()
    }
}

/// A bounded cache of open handles. The handle that came first leaves first.
pub struct ReadHandleCache<H> {
    capacity: usize,
    handles: Vec<(u32, H)>,
}

impl<H> View for ReadHandleCache<H> {
    type V = Seq<(u32, H)>;

    closed spec fn view(&self) -> Seq<(u32, H)> {
        self.handles@
    }
}

/// A file has no handle in a cache.
pub open spec fn lacks_handle<H>(handles: Seq<(u32, H)>, file_id: u32) -> bool {
    forall|i: int| 0 <= i < handles.len() ==> (#[trigger] handles[i]).0 != file_id
}

impl<H> ReadHandleCache<H> {
    pub closed spec fn spec_capacity(&self) -> usize {
        self.capacity
    }

    #[verifier::type_invariant]
    spec fn bounded(&self) -> bool {
        &&& self.handles@.len() <= self.capacity
        &&& forall|i: int, j: int|
            0 <= i < j < self.handles@.len() ==> (#[trigger] self.handles@[i]).0 != (
            #[trigger] self.handles@[j]).0
    }

    pub fn new(capacity: usize) -> (cache: Self)
        ensures
            cache@.len() == 0,
            cache.spec_capacity() == capacity,
    {
        ReadHandleCache { capacity, handles: Vec::new() }
    }

    /// The number of cached handles, which is never above the capacity, with one for a file.
    pub fn len(&self) -> (count: usize)
        ensures
            count == self@.len(),
            count <= self.spec_capacity(),
            forall|i: int, j: int|
                0 <= i < j < self@.len() ==> (#[trigger] self@[i]).0 != (#[trigger] self@[j]).0,
    {
        proof {
            use_type_invariant(self);
        }
        self.handles.len()
    }

    /// The files with a cached handle, the one that leaves next first.
    pub fn order(&self) -> (order: Vec<u32>)
        ensures
            order@ == Seq::new(self@.len(), |i: int| self@[i].0),
    {
        let mut order: Vec<u32> = Vec::new();
        let mut i: usize = 0;
        while i < self.handles.len()
            invariant
                i <= self.handles@.len(),
                order@ == Seq::new(i as nat, |k: int| self.handles@[k].0),
            decreases self.handles@.len() - i,
        {
            order.push(self.handles[i].0);
            i = i + 1;
            proof {
                assert(order@ =~= Seq::new(i as nat, |k: int| self.handles@[k].0));
            }
        }
        order
    }

    fn place(&self, file_id: u32) -> (place: Option<usize>)
        ensures
            match place {
                Some(i) => i < self.handles@.len() && self.handles@[i as int].0 == file_id,
                None => lacks_handle(self.handles@, file_id),
            },
    {
        let mut i: usize = 0;
        while i < self.handles.len()
            invariant
                i <= self.handles@.len(),
                forall|k: int| 0 <= k < i ==> (#[trigger] self.handles@[k]).0 != file_id,
            decreases self.handles@.len() - i,
        {
            if self.handles[i].0 == file_id {
                return Some(i);
            }
            i = i + 1;
        }
        None
    }

    /// The cached handle of a file.
    pub fn hit(&self, file_id: u32) -> (handle: Option<&H>)
        ensures
            match handle {
                Some(handle) => exists|i: int|
                    0 <= i < self@.len() && #[trigger] self@[i] == (file_id, *handle),
                None => lacks_handle(self@, file_id),
            },
    {
        match self.place(file_id) {
            Some(i) => {
                proof {
                    assert(self@[i as int] == (file_id, self.handles@[i as int].1));
                }
                Some(&self.handles[i].1)
            },
            None => None,
        }
    }

    /// Keeps a handle, unless the file has one or the cache has no capacity. The oldest handle
    /// makes room, and is handed back; so is a handle that is not kept.
    pub fn insert_or_get(&mut self, file_id: u32, candidate: H) -> (inserted: Inserted<H>)
        ensures
            final(self).spec_capacity() == old(self).spec_capacity(),
            if old(self).spec_capacity() == 0 || !lacks_handle(old(self)@, file_id) {
                &&& inserted == Inserted::NotKept(candidate)
                &&& final(self)@ == old(self)@
            } else if old(self)@.len() == old(self).spec_capacity() {
                &&& inserted == Inserted::KeptInPlaceOf(old(self)@[0].1)
                &&& final(self)@ == old(self)@.skip(1).push((file_id, candidate))
            } else {
                &&& inserted == Inserted::<H>::Kept
                &&& final(self)@ == old(self)@.push((file_id, candidate))
            },
    {
        proof {
            use_type_invariant(&*self);
        }
        let ghost before = *self;
        if self.capacity == 0 || self.place(file_id).is_some() {
            return Inserted::NotKept(candidate);
        }
        let mut taken = ReadHandleCache::new(self.capacity);
        std::mem::swap(&mut taken, self);
        let capacity = taken.capacity;
        let mut handles: Vec<(u32, H)> = taken.handles;
        if handles.len() == capacity {
            let oldest = handles.remove(0);
            handles.push((file_id, candidate));
            proof {
                assert(handles@ =~= before@.skip(1).push((file_id, candidate)));
            }
            *self = ReadHandleCache { capacity, handles };
            Inserted::KeptInPlaceOf(oldest.1)
        } else {
            handles.push((file_id, candidate));
            *self = ReadHandleCache { capacity, handles };
            Inserted::Kept
        }
    }

    /// Empties the cache and hands the handles back.
    pub fn clear(&mut self) -> (handles: Vec<(u32, H)>)
        ensures
            handles@ == old(self)@,
            final(self)@.len() == 0,
            final(self).spec_capacity() == old(self).spec_capacity(),
    {
        let mut taken = ReadHandleCache::new(self.capacity);
        std::mem::swap(&mut taken, self);
        taken.handles
    }

    /// Takes the handle of a file out.
    pub fn remove(&mut self, file_id: u32) -> (removed: Option<H>)
        ensures
            final(self).spec_capacity() == old(self).spec_capacity(),
            lacks_handle(final(self)@, file_id),
            match removed {
                Some(handle) => exists|i: int|
                    0 <= i < old(self)@.len() && #[trigger] old(self)@[i] == (file_id, handle)
                        && final(self)@ == old(self)@.remove(i),
                None => lacks_handle(old(self)@, file_id) && final(self)@ == old(self)@,
            },
    {
        proof {
            use_type_invariant(&*self);
        }
        let ghost before = *self;
        let i: usize = match self.place(file_id) {
            Some(i) => i,
            None => return None,
        };
        let mut taken = ReadHandleCache::new(self.capacity);
        std::mem::swap(&mut taken, self);
        let capacity = taken.capacity;
        let mut handles: Vec<(u32, H)> = taken.handles;
        let removed = handles.remove(i);
        proof {
            assert(before@[i as int] == (file_id, removed.1));
            assert forall|k: int| 0 <= k < handles@.len() implies (#[trigger] handles@[k]).0
                != file_id by {
                if k < i {
                    assert(handles@[k] == before.handles@[k]);
                } else {
                    assert(handles@[k] == before.handles@[k + 1]);
                }
            }
            assert forall|a: int, b: int| 0 <= a < b < handles@.len() implies (
            #[trigger] handles@[a]).0 != (#[trigger] handles@[b]).0 by {
                let x = if a < i { a } else { a + 1 };
                let y = if b < i { b } else { b + 1 };
                assert(handles@[a] == before.handles@[x]);
                assert(handles@[b] == before.handles@[y]);
            }
        }
        *self = ReadHandleCache { capacity, handles };
        Some(removed.1)
    }
}

/// What became of a handle that was offered to the cache.
pub enum Inserted<H> {
    NotKept(H),
    Kept,
    KeptInPlaceOf(H),
}

/// What to do after a file could not be opened.
pub enum OpenStep {
    /// Close every cached handle, then open the file again.
    ClearCacheAndRetry,
    Retry,
    Fail(StorageError),
}

/// How often the opening of a file was repeated.
#[derive(Clone, Copy, Debug, PartialEq, Eq, Structural)]
pub struct OpenRetry {
    pub cache_cleared: bool,
    pub count: RetryCount,
}

impl OpenRetry {
    /// The want of descriptors in the system is repeated as a call that would block is.
    pub open spec fn counted(failure: IoFailure) -> IoFailure {
        if failure.cause != IoCause::Interrupted && failure.cause != IoCause::WouldBlock
            && failure.has_code(ENFILE) {
            IoFailure { cause: IoCause::WouldBlock, ..failure }
        } else {
            failure
        }
    }

    pub fn new() -> (retry: Self)
        ensures
            retry == (OpenRetry { cache_cleared: false, count: RetryCount::fresh() }),
    {
        OpenRetry { cache_cleared: false, count: RetryCount::new() }
    }

    /// Decides what to do after a failure: where the process has too many open files, the
    /// cache is emptied, once; a transient failure is repeated, up to a limit.
    pub fn after_failure(&mut self, file_id: u32, failure: IoFailure) -> (step: OpenStep)
        ensures
            if failure.has_code(EMFILE) && !old(self).cache_cleared {
                &&& step is ClearCacheAndRetry
                &&& *final(self) == (OpenRetry { cache_cleared: true, ..*old(self) })
            } else {
                match old(self).count.after(OpenRetry::counted(failure)) {
                    Some(count) => {
                        &&& step is Retry
                        &&& *final(self) == (OpenRetry { count, ..*old(self) })
                    },
                    None => {
                        &&& step matches OpenStep::Fail(error) && error@ == open_error_view(
                            file_id,
                            failure,
                        )
                        &&& *final(self) == *old(self)
                    },
                }
            },
    {
        if failure.is_code(EMFILE) && !self.cache_cleared {
            self.cache_cleared = true;
            return OpenStep::ClearCacheAndRetry;
        }
        let counted = if failure.cause != IoCause::Interrupted && failure.cause
            != IoCause::WouldBlock && failure.is_code(ENFILE) {
            IoFailure { cause: IoCause::WouldBlock, os_code: failure.os_code }
        } else {
            failure
        };
        if self.count.retry(&counted) {
            OpenStep::Retry
        } else {
            OpenStep::Fail(classify_open_error(file_id, failure))
        }
    }
}

/// What a positioned read gave.
#[derive(Clone, Copy, Debug)]
pub enum ReadOutcome {
    Read(u64),
    Failed(IoFailure),
}

/// What to do next while a part of a file is read.
pub enum ReadStep {
    /// Read at most so many bytes from an offset.
    ReadAt { offset: u64, wanted: u64 },
    Done,
    Fail(StorageError),
}

/// A part of a file that is being read.
#[derive(Clone, Copy, Debug, PartialEq, Eq, Structural)]
pub struct ExactRead {
    pub file_id: u32,
    pub offset: u64,
    pub wanted: u64,
    pub count: RetryCount,
}

impl ExactRead {
    /// The next step of a read that has come this far.
    pub open spec fn is_next(self, step: ReadStep) -> bool {
        if self.wanted == 0 {
            step is Done
        } else {
            step == (ReadStep::ReadAt { offset: self.offset, wanted: self.wanted })
        }
    }

    pub fn start(file_id: u32, offset: u64, wanted: u64) -> (read: (Self, ReadStep))
        ensures
            read.0 == (ExactRead { file_id, offset, wanted, count: RetryCount::fresh() }),
            read.0.is_next(read.1),
    {
        let read = ExactRead { file_id, offset, wanted, count: RetryCount::new() };
        let step = read.next();
        (read, step)
    }

    fn next(&self) -> (step: ReadStep)
        ensures
            self.is_next(step),
    {
        if self.wanted == 0 {
            ReadStep::Done
        } else {
            ReadStep::ReadAt { offset: self.offset, wanted: self.wanted }
        }
    }

    /// Takes what a read gave. Progress starts the counts of repetitions anew; the end of the
    /// file, or more than was wanted, means that the file is corrupt.
    pub fn advance(&mut self, outcome: ReadOutcome) -> (step: ReadStep)
        ensures
            match outcome {
                ReadOutcome::Read(count) => if count == 0 || old(self).offset + count > u64::MAX {
                    &&& step matches ReadStep::Fail(error) && error@ == read_corruption_view(
                        old(self).file_id,
                        Some(old(self).offset),
                    )
                    &&& *final(self) == *old(self)
                } else if count > old(self).wanted {
                    &&& step matches ReadStep::Fail(error) && error@ == read_corruption_view(
                        old(self).file_id,
                        Some((old(self).offset + count) as u64),
                    )
                    &&& *final(self) == *old(self)
                } else {
                    &&& *final(self) == (ExactRead {
                        file_id: old(self).file_id,
                        offset: (old(self).offset + count) as u64,
                        wanted: (old(self).wanted - count) as u64,
                        count: RetryCount::fresh(),
                    })
                    &&& final(self).is_next(step)
                },
                ReadOutcome::Failed(failure) => match old(self).count.after(failure) {
                    Some(count) => {
                        &&& *final(self) == (ExactRead { count, ..*old(self) })
                        &&& final(self).is_next(step)
                    },
                    None => {
                        &&& *final(self) == *old(self)
                        &&& step matches ReadStep::Fail(error) && error@ == read_io_view(
                            old(self).file_id,
                            Some(old(self).offset),
                            failure,
                        )
                    },
                },
            },
    {
        match outcome {
            ReadOutcome::Read(count) => {
                if count == 0 {
                    return ReadStep::Fail(read_corruption(self.file_id, Some(self.offset)));
                }
                let offset: u64 = match self.offset.checked_add(count) {
                    Some(offset) => offset,
                    None => {
                        return ReadStep::Fail(read_corruption(self.file_id, Some(self.offset)));
                    },
                };
                if count > self.wanted {
                    return ReadStep::Fail(read_corruption(self.file_id, Some(offset)));
                }
                self.offset = offset;
                self.wanted = self.wanted - count;
                self.count = RetryCount::new();
                self.next()
            },
            ReadOutcome::Failed(failure) => {
                if self.count.retry(&failure) {
                    self.next()
                } else {
                    ReadStep::Fail(read_io(self.file_id, Some(self.offset), failure))
                }
            },
        }
    }
}

/// A read that is done has read as many bytes as were wanted, and no read goes beyond them.
pub proof fn law_read_accounts_for_every_byte(before: ExactRead, count: u64)
    requires
        0 < count <= before.wanted,
        before.offset + before.wanted <= u64::MAX,
    ensures
        ({
            let after = ExactRead {
                file_id: before.file_id,
                offset: (before.offset + count) as u64,
                wanted: (before.wanted - count) as u64,
                count: RetryCount::fresh(),
            };
            &&& after.offset + after.wanted == before.offset + before.wanted
            &&& after.wanted < before.wanted
        }),
{
}

/// Checks what the files of a database are opened with.
pub fn validate_file_set(database_uuid: &[u8; 16], geometry: VLogGeometry) -> (result: Result<()>)
    ensures
        match result {
            Ok(_) => is_identifier(database_uuid@) && geometry.valid(),
            Err(error) => {
                ||| !is_identifier(database_uuid@) && error@ == read_corruption_view(0, None)
                ||| is_identifier(database_uuid@) && !geometry.valid() && error@ == seen_by_read(
                    invalid_vlog_view(StorageErrorKind::InvalidArgument),
                    None,
                    None,
                )
            },
        },
{
    if !is_nonzero_uuid(database_uuid) {
        return Err(read_corruption(0, None));
    }
    match LayoutPlanner::empty(geometry) {
        Ok(_) => Ok(()),
        Err(error) => Err(read_context(error, None, None)),
    }
}

/// An opened file is the one that was asked for, and not longer than a file can be.
pub open spec fn is_expected_file(
    expected: FileIdentity,
    facts: FileFacts,
    geometry: VLogGeometry,
) -> bool {
    facts.is_regular && facts.identity == expected && facts.len <= geometry.max_file_size
}

/// Checks an opened file before it is read.
pub fn validate_candidate(
    file_id: u32,
    expected: FileIdentity,
    facts: FileFacts,
    geometry: VLogGeometry,
) -> (result: Result<()>)
    ensures
        match result {
            Ok(_) => is_expected_file(expected, facts, geometry),
            Err(error) => !is_expected_file(expected, facts, geometry) && error@
                == read_corruption_view(file_id, None),
        },
{
    if !facts.is_regular || facts.identity != expected || facts.len > geometry.max_file_size {
        return Err(read_corruption(file_id, None));
    }
    Ok(())
}

/// Checks the header of an opened file. Only the header of the file is read; the headers of
/// its pages were checked when the database was opened.
pub fn validate_candidate_header(
    file_id: u32,
    database_uuid: &[u8; 16],
    encoded_header: &[u8],
) -> (result: Result<()>)
    requires
        is_identifier(database_uuid@),
        file_id <= MAX_VLOG_FILE_ID,
    ensures
        match result {
            Ok(_) => encoded_header@ == new_file_header(database_uuid@, file_id),
            Err(error) => {
                &&& encoded_header@ != new_file_header(database_uuid@, file_id)
                &&& {
                    ||| error@ == read_corruption_view(file_id, None) && exists|
                        header: VLogFileHeader,
                    |
                        header.valid() && encoded_header@ == #[trigger] header.encoded()
                    ||| error@ == decode_view(
                        if file_header_of_other_version(encoded_header@) {
                            StorageErrorKind::IncompatibleFormat
                        } else {
                            StorageErrorKind::Corruption
                        },
                    ).with_place(Some(file_id), Some(PAGE_HEADER_ENCODED_LEN as u64)) && forall|
                        header: VLogFileHeader,
                    |
                        header.valid() ==> encoded_header@ != #[trigger] header.encoded()
                }
            },
        },
{
    let wanted = VLogFileHeader::new(*database_uuid, file_id);
    proof {
        lemma_file_header_layout(wanted);
        assert(wanted.encoded() == new_file_header(database_uuid@, file_id));
        assert(wanted.valid());
    }
    let header = match VLogFileHeader::decode(encoded_header) {
        Ok(header) => header,
        Err(error) => {
            return Err(
                read_context(error, Some(file_id), Some(PAGE_HEADER_ENCODED_LEN as u64)),
            );
        },
    };
    proof {
        lemma_file_header_layout(header);
    }
    if header.file_id != file_id || !same_uuid(&header.database_uuid, database_uuid) {
        return Err(read_corruption(file_id, None));
    }
    Ok(())
}

/// `D`
pub const FILE_NAME_PREFIX: u8 = 0x44;

/// `.data`
pub const FILE_NAME_SUFFIX: u64 = 0x61_7461_642e;

/// The name of a file as ASCII: `D`, six decimal digits, `.data`.
pub open spec fn file_name(file_id: u32) -> Seq<u8> {
    seq![FILE_NAME_PREFIX] + decimal_digits(file_id as nat, 6) + crate::bytes::le_bytes(
        FILE_NAME_SUFFIX as nat,
        5,
    )
}

/// The lowest `count` decimal digits of a number as ASCII, the most significant first.
pub open spec fn decimal_digits(value: nat, count: nat) -> Seq<u8>
    decreases count,
{
    if count == 0 {
        Seq::empty()
    } else {
        decimal_digits(value / 10, (count - 1) as nat).push((0x30 + value % 10) as u8)
    }
}

/// The number that decimal digits spell.
pub open spec fn decimal_value(digits: Seq<u8>) -> nat
    decreases digits.len(),
{
    if digits.len() == 0 {
        0
    } else {
        10 * decimal_value(digits.drop_last()) + (digits.last() - 0x30) as nat
    }
}

/// A byte is an ASCII digit.
pub open spec fn is_digit(byte: u8) -> bool {
    0x30 <= byte <= 0x39
}

/// The limit of a number with so many decimal digits.
pub open spec fn decimal_limit(count: nat) -> nat
    decreases count,
{
    if count == 0 {
        1
    } else {
        10 * decimal_limit((count - 1) as nat)
    }
}

/// The digits of a number spell it.
pub proof fn lemma_decimal_round_trip(value: nat, count: nat)
    requires
        value < decimal_limit(count),
    ensures
        decimal_digits(value, count).len() == count,
        decimal_value(decimal_digits(value, count)) == value,
        forall|i: int|
            0 <= i < count ==> is_digit(#[trigger] decimal_digits(value, count)[i]),
    decreases count,
{
    if count > 0 {
        lemma_decimal_round_trip(value / 10, (count - 1) as nat);
        let front = decimal_digits(value / 10, (count - 1) as nat);
        assert(decimal_digits(value, count).drop_last() =~= front);
    }
}

/// The number that digits spell has those digits.
pub proof fn lemma_digits_of_value(digits: Seq<u8>)
    requires
        forall|i: int| 0 <= i < digits.len() ==> is_digit(#[trigger] digits[i]),
    ensures
        decimal_digits(decimal_value(digits), digits.len()) == digits,
        decimal_value(digits) < decimal_limit(digits.len()),
    decreases digits.len(),
{
    if digits.len() > 0 {
        let front = digits.drop_last();
        assert forall|i: int| 0 <= i < front.len() implies is_digit(#[trigger] front[i]) by {
            assert(front[i] == digits[i]);
        }
        lemma_digits_of_value(front);
        assert(is_digit(digits[digits.len() - 1]));
        assert(decimal_value(digits) / 10 == decimal_value(front));
        assert(digits =~= front.push(digits.last()));
    } else {
        assert(digits =~= Seq::empty());
    }
}

/// The name of a file.
pub fn vlog_file_name(file_id: u32) -> (result: Result<Vec<u8>>)
    ensures
        match result {
            Ok(name) => file_id <= MAX_VLOG_FILE_ID && name@ == file_name(file_id),
            Err(error) => file_id > MAX_VLOG_FILE_ID && error@ == read_corruption_view(
                file_id,
                None,
            ),
        },
{
    if file_id > MAX_VLOG_FILE_ID {
        return Err(read_corruption(file_id, None));
    }
    let mut name: Vec<u8> = Vec::new();
    name.push(FILE_NAME_PREFIX);
    append_digits(&mut name, file_id, 6);
    crate::bytes::append_le(&mut name, FILE_NAME_SUFFIX, 5);
    proof {
        assert(name@ =~= file_name(file_id));
    }
    Ok(name)
}

/// Appends the lowest decimal digits of a number.
fn append_digits(out: &mut Vec<u8>, value: u32, count: usize)
    ensures
        final(out)@ == old(out)@ + decimal_digits(value as nat, count as nat),
    decreases count,
{
    if count > 0 {
        append_digits(out, value / 10, count - 1);
        out.push(0x30 + (value % 10) as u8);
        proof {
            assert(out@ =~= old(out)@ + decimal_digits(value as nat, count as nat));
        }
    } else {
        proof {
            assert(out@ =~= old(out)@ + decimal_digits(value as nat, 0));
        }
    }
}

/// The number of the file that a name names, or `None` where it is no name of a file.
pub fn parse_vlog_file_name(name: &[u8]) -> (file_id: Option<u32>)
    ensures
        match file_id {
            Some(file_id) => file_id <= MAX_VLOG_FILE_ID && name@ == file_name(file_id),
            None => forall|file_id: u32|
                file_id <= MAX_VLOG_FILE_ID ==> name@ != #[trigger] file_name(file_id),
        },
{
    proof {
        lemma_decimal_limit_six();
        crate::bytes::lemma_le_bytes_len(FILE_NAME_SUFFIX as nat, 5);
        assert forall|file_id: u32|
            file_id <= MAX_VLOG_FILE_ID && name@ == #[trigger] file_name(file_id) implies {
            &&& name@.len() == 12
            &&& name@[0] == FILE_NAME_PREFIX
            &&& name@.subrange(7, 12) == crate::bytes::le_bytes(FILE_NAME_SUFFIX as nat, 5)
            &&& forall|i: int| 1 <= i < 7 ==> is_digit(#[trigger] name@[i])
        } by {
            lemma_decimal_round_trip(file_id as nat, 6);
            let digits = decimal_digits(file_id as nat, 6);
            assert(name@.subrange(7, 12) =~= crate::bytes::le_bytes(FILE_NAME_SUFFIX as nat, 5));
            assert forall|i: int| 1 <= i < 7 implies is_digit(#[trigger] name@[i]) by {
                assert(name@[i] == digits[i - 1]);
            }
        }
    }
    if name.len() != 12 || name[0] != FILE_NAME_PREFIX {
        return None;
    }
    let mut suffix: Vec<u8> = Vec::new();
    crate::bytes::append_le(&mut suffix, FILE_NAME_SUFFIX, 5);
    proof {
        assert(suffix@ =~= crate::bytes::le_bytes(FILE_NAME_SUFFIX as nat, 5));
    }
    if !crate::bytes::matches_at(name, 7, suffix.as_slice()) {
        return None;
    }
    let ghost digits = name@.subrange(1, 7);
    let mut value: u32 = 0;
    let mut i: usize = 0;
    proof {
        reveal_with_fuel(decimal_limit, 7);
    }
    while i < 6
        invariant
            i <= 6,
            name@.len() == 12,
            digits == name@.subrange(1, 7),
            forall|k: int| 0 <= k < i ==> is_digit(#[trigger] digits[k]),
            value == decimal_value(digits.take(i as int)),
            value < decimal_limit(i as nat),
            decimal_limit(0) == 1,
            decimal_limit(1) == 10,
            decimal_limit(2) == 100,
            decimal_limit(3) == 1000,
            decimal_limit(4) == 10_000,
            decimal_limit(5) == 100_000,
            decimal_limit(6) == 1_000_000,
            forall|file_id: u32|
                file_id <= MAX_VLOG_FILE_ID && name@ == #[trigger] file_name(file_id)
                    ==> forall|j: int| 1 <= j < 7 ==> is_digit(#[trigger] name@[j]),
        decreases 6 - i,
    {
        let byte: u8 = name[i + 1];
        proof {
            assert(digits[i as int] == name@[i + 1]);
        }
        if byte < 0x30 || byte > 0x39 {
            return None;
        }
        proof {
            assert(digits.take(i + 1).drop_last() =~= digits.take(i as int));
        }
        value = value * 10 + (byte - 0x30) as u32;
        i = i + 1;
    }
    proof {
        assert(digits.take(6) =~= digits);
        lemma_digits_of_value(digits);
        assert(name@ =~= file_name(value));
    }
    Some(value)
}

proof fn lemma_decimal_limit_six()
    ensures
        decimal_limit(6) == 1_000_000,
{
    reveal_with_fuel(decimal_limit, 7);
}

/// Different files have different names.
pub proof fn law_file_names_differ(a: u32, b: u32)
    requires
        a <= MAX_VLOG_FILE_ID,
        b <= MAX_VLOG_FILE_ID,
        file_name(a) == file_name(b),
    ensures
        a == b,
{
    lemma_decimal_limit_six();
    lemma_decimal_round_trip(a as nat, 6);
    lemma_decimal_round_trip(b as nat, 6);
    assert(file_name(a).subrange(1, 7) =~= decimal_digits(a as nat, 6));
    assert(file_name(b).subrange(1, 7) =~= decimal_digits(b as nat, 6));
}

/// A file that was made known is the known one from then on: under its number, the same regular
/// file is taken and no other, and no other number is touched. A number beyond the last one, or
/// anything but a regular file, is never made known.
pub proof fn law_known_file_stays_the_same(
    catalog: Map<u32, FileIdentity>,
    file_id: u32,
    facts: FileFacts,
    other_id: u32,
    other: FileFacts,
)
    ensures
        FileCatalog::accepts(catalog, file_id, facts) <==> {
            &&& file_id <= 999_999
            &&& facts.is_regular
            &&& !catalog.dom().contains(file_id) || catalog[file_id] == facts.identity
        },
        ({
            let after = catalog.insert(file_id, facts.identity);
            &&& FileCatalog::is_known(after, file_id, other) <==> other.is_regular
                && other.identity == facts.identity
            &&& other_id != file_id ==> (FileCatalog::is_known(after, other_id, other)
                <==> FileCatalog::is_known(catalog, other_id, other))
            &&& FileCatalog::accepts(after, file_id, other) ==> other.identity == facts.identity
        }),
        !FileCatalog::is_known(catalog.remove(file_id), file_id, other),
{
}

/// A file that was opened to be read is taken exactly where it is the regular file that is known,
/// and no longer than a file can be.
pub proof fn law_only_the_known_file_is_read(
    expected: FileIdentity,
    facts: FileFacts,
    geometry: VLogGeometry,
)
    ensures
        is_expected_file(expected, facts, geometry) <==> facts.is_regular && facts.identity
            == expected && !(facts.len > geometry.max_file_size),
{
}

/// A file that cannot be opened is lost where it is missing or something else stands in its
/// place. Want of descriptors, in the process or in the system, and a call that may pass, can be
/// met by trying again; everything else is a failure of the surroundings.
pub proof fn law_unopened_file_is_classified(file_id: u32, failure: IoFailure)
    ensures
        ({
            let error = open_error_view(file_id, failure);
            let lost = failure.cause == IoCause::NotFound || failure.cause
                == IoCause::TooManyLinks;
            let passing = failure.os_code == Some(24i32) || failure.os_code == Some(23i32)
                || failure.cause == IoCause::Interrupted || failure.cause == IoCause::WouldBlock;
            &&& error.operation == Operation::Get
            &&& error.protocol_stage == ProtocolStage::Read
            &&& error.vlog_file_id == Some(file_id)
            &&& error.kind == (if lost {
                StorageErrorKind::Corruption
            } else if passing {
                StorageErrorKind::ResourceExhausted
            } else {
                StorageErrorKind::Io
            })
            &&& error.retry_advice == (if lost {
                RetryAdvice::RestoreOrRepair
            } else if passing {
                RetryAdvice::RetrySameInstance
            } else {
                RetryAdvice::FixEnvironmentAndReopen
            })
            &&& !lost ==> error.os_code == failure.os_code
        }),
{
}

/// The opening of a file is repeated for want of descriptors in the system as it is where the
/// call would have had to wait: three times.
pub proof fn law_want_of_descriptors_is_waited_out(count: RetryCount, failure: IoFailure)
    ensures
        count.after(OpenRetry::counted(failure)) is Some <==> {
            ||| failure.cause == IoCause::Interrupted && count.interrupted < 8
            ||| failure.cause != IoCause::Interrupted && (failure.cause == IoCause::WouldBlock
                || failure.os_code == Some(23i32)) && count.transient < 3
        },
        OpenRetry::counted(failure).os_code == failure.os_code,
{
}

/// A failed read may be tried again exactly where the call may pass, and names the place.
pub proof fn law_failed_read_of_a_file(file_id: u32, offset: Option<u64>, failure: IoFailure)
    ensures
        ({
            let error = read_io_view(file_id, offset, failure);
            let passing = failure.cause == IoCause::Interrupted || failure.cause
                == IoCause::WouldBlock;
            let damaged = read_corruption_view(file_id, offset);
            &&& error.kind == StorageErrorKind::ResourceExhausted <==> passing
            &&& error.kind == StorageErrorKind::Io <==> !passing
            &&& error.retry_advice == RetryAdvice::RetrySameInstance <==> passing
            &&& error.os_code == failure.os_code
            &&& error.vlog_file_id == Some(file_id) && error.vlog_offset == offset
            &&& damaged.kind == StorageErrorKind::Corruption
            &&& damaged.vlog_file_id == Some(file_id) && damaged.vlog_offset == offset
            &&& damaged.retry_advice == RetryAdvice::RestoreOrRepair
        }),
{
}

/// A part of a file is read from where it begins up to its last byte: as long as bytes are
/// wanted, they are asked for at the place behind those that came; then the read is done.
pub proof fn law_read_asks_for_what_is_missing(read: ExactRead, step: ReadStep)
    requires
        read.is_next(step),
    ensures
        step is Done <==> read.wanted == 0,
        step matches ReadStep::ReadAt { offset, wanted } ==> offset == read.offset && wanted
            == read.wanted && wanted > 0,
        !(step is Fail),
{
}

/// The name of a file is `D`, its number in six digits, and `.data`.
pub proof fn law_file_name_spells_its_number(file_id: u32)
    requires
        file_id <= MAX_VLOG_FILE_ID,
    ensures
        ({
            let name = file_name(file_id);
            &&& name.len() == 12
            &&& name[0] == 0x44
            &&& forall|i: int| 1 <= i < 7 ==> is_digit(#[trigger] name[i])
            &&& decimal_value(name.subrange(1, 7)) == file_id
            &&& name.subrange(7, 12) == seq![0x2eu8, 0x64u8, 0x61u8, 0x74u8, 0x61u8]
        }),
{
    let name = file_name(file_id);
    lemma_decimal_limit_six();
    lemma_decimal_round_trip(file_id as nat, 6);
    let digits = decimal_digits(file_id as nat, 6);
    let suffix = crate::bytes::le_bytes(FILE_NAME_SUFFIX as nat, 5);
    reveal_with_fuel(crate::bytes::le_bytes, 6);
    assert(suffix =~= seq![0x2eu8, 0x64u8, 0x61u8, 0x74u8, 0x61u8]);
    assert(name.subrange(1, 7) =~= digits);
    assert(name.subrange(7, 12) =~= suffix);
    assert forall|i: int| 1 <= i < 7 implies is_digit(#[trigger] name[i]) by {
        assert(name[i] == digits[i - 1]);
    }
}

} // verus!
