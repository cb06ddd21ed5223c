//! Destroying a database: what has to be there before anything is removed, and in what order
//! it is removed.

use vstd::prelude::*;

use crate::db::failure::{general_advice, metadata_error, metadata_view, retry_advice_for};
use crate::error::{
    detached_error, DestroyFailureContext, DestroyStage, ErrorView, ManagedObject, Operation,
    ProtocolStage, Result, RetryAdvice, StorageError, StorageErrorKind,
};
use crate::format::FormatMetadataV0;
use crate::io_failure::IoFailure;
use crate::memory::{asked, Memory};
use crate::recovery::topology::{
    in_file_order, in_strict_file_order, inventory_view, lists_file, validate_file_identity,
    ManagedInventory, VLogInventoryEntry,
};
use crate::root::{layout_error, open_preflight_view, ManagedEntryKind};
use crate::vlog::file_set::{file_name, parse_vlog_file_name};
use crate::vlog::geometry::{MAX_VLOG_FILE_ID, MAX_VLOG_FILE_SIZE};
use crate::vlog::header::{
    file_header_of_other_version, new_file_header, PageHeader, FILE_HEADER_ENCODED_LEN,
    PAGE_HEADER_ENCODED_LEN,
};

verus! {

/// An error as the one who destroys a database is told it.
pub open spec fn destroy_view(
    error: ErrorView,
    object: ManagedObject,
    stage: DestroyStage,
    partially_deleted: bool,
) -> ErrorView {
    ErrorView {
        operation: Operation::Destroy,
        protocol_stage: ProtocolStage::Lifecycle,
        write_outcome: None,
        instance_state: None,
        retry_advice: general_advice(error.kind),
        destroy_failure: Some(
            DestroyFailureContext {
                failed_object: object,
                stage,
                partially_deleted,
                os_code: error.os_code,
            },
        ),
        ..error
    }
}

pub fn destroy_failure(
    error: StorageError,
    object: ManagedObject,
    stage: DestroyStage,
    partially_deleted: bool,
) -> (told: StorageError)
    ensures
        told@ == destroy_view(error@, object, stage, partially_deleted),
{
    let mut told = error;
    told.operation = Operation::Destroy;
    told.protocol_stage = ProtocolStage::Lifecycle;
    told.write_outcome = None;
    told.instance_state = None;
    told.retry_advice = retry_advice_for(told.kind);
    told.destroy_failure = Some(
        DestroyFailureContext {
            failed_object: object,
            stage,
            partially_deleted,
            os_code: told.os_code,
        },
    );
    told
}

/// A failure of the operating system, while a database is destroyed.
pub open spec fn destroy_io_view(
    failure: IoFailure,
    object: ManagedObject,
    stage: DestroyStage,
    partially_deleted: bool,
) -> ErrorView {
    destroy_view(
        detached_error(
            StorageErrorKind::Io,
            Operation::Destroy,
            ProtocolStage::Lifecycle,
            None,
            RetryAdvice::FixEnvironmentAndReopen,
        ).with_os_code(failure.os_code),
        object,
        stage,
        partially_deleted,
    )
}

pub fn destroy_io_failure(
    failure: IoFailure,
    object: ManagedObject,
    stage: DestroyStage,
    partially_deleted: bool,
) -> (told: StorageError)
    ensures
        told@ == destroy_io_view(failure, object, stage, partially_deleted),
{
    let mut error = StorageError::codec_error(
        StorageErrorKind::Io,
        Operation::Destroy,
        ProtocolStage::Lifecycle,
        None,
        RetryAdvice::FixEnvironmentAndReopen,
    );
    error.os_code = failure.os_code;
    destroy_failure(error, object, stage, partially_deleted)
}

/// An error about an object, before anything was removed.
pub open spec fn inventory_failure(error: ErrorView, object: ManagedObject) -> ErrorView {
    destroy_view(error, object, DestroyStage::Inventory, false)
}

pub open spec fn destroy_layout_view(object: ManagedObject) -> ErrorView {
    inventory_failure(open_preflight_view(StorageErrorKind::InvalidLayout), object)
}

pub open spec fn destroy_corruption_view(object: ManagedObject) -> ErrorView {
    inventory_failure(metadata_view(StorageErrorKind::Corruption), object)
}

pub open spec fn destroy_memory_view(object: ManagedObject) -> ErrorView {
    inventory_failure(
        detached_error(
            StorageErrorKind::ResourceExhausted,
            Operation::Destroy,
            ProtocolStage::Lifecycle,
            None,
            RetryAdvice::RetrySameInstance,
        ),
        object,
    )
}

fn destroy_layout_failure(object: ManagedObject) -> (told: StorageError)
    ensures
        told@ == destroy_layout_view(object),
{
    destroy_failure(layout_error(), object, DestroyStage::Inventory, false)
}

fn destroy_corruption_failure(object: ManagedObject) -> (told: StorageError)
    ensures
        told@ == destroy_corruption_view(object),
{
    destroy_failure(
        metadata_error(StorageErrorKind::Corruption),
        object,
        DestroyStage::Inventory,
        false,
    )
}

fn destroy_resource_failure(object: ManagedObject) -> (told: StorageError)
    ensures
        told@ == destroy_memory_view(object),
{
    destroy_failure(
        StorageError::codec_error(
            StorageErrorKind::ResourceExhausted,
            Operation::Destroy,
            ProtocolStage::Lifecycle,
            None,
            RetryAdvice::RetrySameInstance,
        ),
        object,
        DestroyStage::Inventory,
        false,
    )
}

/// A format file is a regular file or is not there.
pub open spec fn fits_file(kind: ManagedEntryKind) -> bool {
    kind == ManagedEntryKind::Missing || kind is RegularFile
}

fn validate_destroy_file_kind(kind: ManagedEntryKind, object: ManagedObject) -> (result: Result<()>)
    ensures
        match result {
            Ok(_) => fits_file(kind),
            Err(error) => !fits_file(kind) && error@ == destroy_layout_view(object),
        },
{
    match kind {
        ManagedEntryKind::Missing | ManagedEntryKind::RegularFile { .. } => Ok(()),
        _ => Err(destroy_layout_failure(object)),
    }
}

/// A directory is there or is not.
pub open spec fn fits_directory(kind: ManagedEntryKind) -> bool {
    kind == ManagedEntryKind::Missing || kind == ManagedEntryKind::Directory
}

fn validate_destroy_directory_kind(kind: ManagedEntryKind, object: ManagedObject) -> (result: Result<
    bool,
>)
    ensures
        match result {
            Ok(present) => fits_directory(kind) && present == (kind
                == ManagedEntryKind::Directory),
            Err(error) => !fits_directory(kind) && error@ == destroy_layout_view(object),
        },
{
    match kind {
        ManagedEntryKind::Missing => Ok(false),
        ManagedEntryKind::Directory => Ok(true),
        _ => Err(destroy_layout_failure(object)),
    }
}

/// Checks the two format files, before they are read.
pub fn check_format_files(format: ManagedEntryKind, temporary: ManagedEntryKind) -> (result: Result<()>)
    ensures
        if !fits_file(format) {
            result matches Err(error) && error@ == destroy_layout_view(ManagedObject::Format)
        } else if !fits_file(temporary) || (format is RegularFile && temporary is RegularFile) {
            result matches Err(error) && error@ == destroy_layout_view(
                ManagedObject::FormatTemporary,
            )
        } else {
            result is Ok
        },
{
    validate_destroy_file_kind(format, ManagedObject::Format)?;
    validate_destroy_file_kind(temporary, ManagedObject::FormatTemporary)?;
    if format != ManagedEntryKind::Missing && temporary != ManagedEntryKind::Missing {
        return Err(destroy_layout_failure(ManagedObject::FormatTemporary));
    }
    Ok(())
}

/// What the two format files were found to say. Never both.
#[derive(Clone, Copy, Debug, PartialEq, Eq, Structural)]
pub enum DestroyFormat {
    Neither,
    Published,
    Temporary,
}

/// What has to be looked at before a database is removed.
#[derive(Clone, Copy, Debug, PartialEq, Eq, Structural)]
pub struct DestroyInspection {
    pub format: DestroyFormat,
    pub index_present: bool,
    pub vlog_present: bool,
}

impl DestroyInspection {
    /// The log is already gone, so that the index may be partly gone too.
    pub open spec fn allows_partial_index(self) -> bool {
        self.format == DestroyFormat::Published && !self.vlog_present
    }
}

/// Why what was found is not a database that can be destroyed.
pub open spec fn destroy_refusal(
    format: DestroyFormat,
    index: ManagedEntryKind,
    vlog: ManagedEntryKind,
) -> Option<ErrorView> {
    if !fits_directory(index) {
        Some(destroy_layout_view(ManagedObject::IndexDirectory))
    } else if !fits_directory(vlog) {
        Some(destroy_layout_view(ManagedObject::VLogDirectory))
    } else if format == DestroyFormat::Neither && index == ManagedEntryKind::Directory {
        Some(destroy_layout_view(ManagedObject::IndexDirectory))
    } else if format == DestroyFormat::Neither && vlog == ManagedEntryKind::Directory {
        Some(destroy_layout_view(ManagedObject::VLogDirectory))
    } else if format == DestroyFormat::Published && index == ManagedEntryKind::Missing && vlog
        == ManagedEntryKind::Directory {
        Some(destroy_corruption_view(ManagedObject::DatabaseIdentity))
    } else {
        None
    }
}

/// Takes what was found. Without a format file there may be nothing else; and the log never
/// outlives the index.
pub fn inventory_for_destroy(
    format: DestroyFormat,
    index: ManagedEntryKind,
    vlog: ManagedEntryKind,
) -> (result: Result<DestroyInspection>)
    ensures
        match destroy_refusal(format, index, vlog) {
            Some(view) => result matches Err(error) && error@ == view,
            None => result == Ok::<DestroyInspection, StorageError>(
                DestroyInspection {
                    format,
                    index_present: index == ManagedEntryKind::Directory,
                    vlog_present: vlog == ManagedEntryKind::Directory,
                },
            ),
        },
{
    let index_present = validate_destroy_directory_kind(index, ManagedObject::IndexDirectory)?;
    let vlog_present = validate_destroy_directory_kind(vlog, ManagedObject::VLogDirectory)?;
    if format == DestroyFormat::Neither {
        if index_present {
            return Err(destroy_layout_failure(ManagedObject::IndexDirectory));
        }
        if vlog_present {
            return Err(destroy_layout_failure(ManagedObject::VLogDirectory));
        }
    }
    if format == DestroyFormat::Published && !index_present && vlog_present {
        return Err(destroy_corruption_failure(ManagedObject::DatabaseIdentity));
    }
    Ok(DestroyInspection { format, index_present, vlog_present })
}

impl DestroyInspection {
    /// Takes whether the directory of the index is empty, and says whether the index has to be
    /// opened and checked.
    pub fn index_entries(&self, is_empty: bool) -> (result: Result<bool>)
        ensures
            if is_empty && self.format == DestroyFormat::Published && self.vlog_present {
                result matches Err(error) && error@ == destroy_corruption_view(
                    ManagedObject::DatabaseIdentity,
                )
            } else {
                result == Ok::<bool, StorageError>(
                    !is_empty && self.format != DestroyFormat::Neither,
                )
            },
    {
        if self.format == DestroyFormat::Published && is_empty && self.vlog_present {
            return Err(destroy_corruption_failure(ManagedObject::DatabaseIdentity));
        }
        Ok(!is_empty && self.format != DestroyFormat::Neither)
    }

    /// Takes whether the index is the one of the database. One that may be partly gone need not
    /// be.
    pub fn index_checked(&self, checked: Result<()>) -> (result: Result<()>)
        ensures
            match checked {
                Ok(_) => result is Ok,
                Err(failure) => if self.allows_partial_index() {
                    result is Ok
                } else {
                    result matches Err(error) && error@ == inventory_failure(
                        failure@,
                        ManagedObject::DatabaseIdentity,
                    )
                },
            },
    {
        match checked {
            Ok(_) => Ok(()),
            Err(failure) => {
                if self.format == DestroyFormat::Published && !self.vlog_present {
                    return Ok(());
                }
                Err(
                    destroy_failure(
                        failure,
                        ManagedObject::DatabaseIdentity,
                        DestroyStage::Inventory,
                        false,
                    ),
                )
            },
        }
    }

    /// Takes whether there is anything in the directory of the log, while a database is being
    /// made: nothing may be.
    pub fn vlog_entries(&self, has_entries: bool) -> (result: Result<()>)
        ensures
            if self.format == DestroyFormat::Temporary && has_entries {
                result matches Err(error) && error@ == destroy_layout_view(
                    ManagedObject::VLogDirectory,
                )
            } else {
                result is Ok
            },
    {
        if self.format == DestroyFormat::Temporary && has_entries {
            return Err(destroy_layout_failure(ManagedObject::VLogDirectory));
        }
        Ok(())
    }
}

/// The number of a file of the log, from its name in the directory. `None` stands for a name
/// that is no text.
pub fn destroy_file_id(name: Option<&[u8]>) -> (result: Result<u32>)
    ensures
        match result {
            Ok(file_id) => file_id <= MAX_VLOG_FILE_ID && name is Some && name->0@ == file_name(
                file_id,
            ),
            Err(error) => error@ == destroy_layout_view(ManagedObject::VLogDirectory) && (
            name matches Some(bytes) ==> forall|file_id: u32|
                file_id <= MAX_VLOG_FILE_ID ==> bytes@ != #[trigger] file_name(file_id)),
        },
{
    match name {
        Some(bytes) => match parse_vlog_file_name(bytes) {
            Some(file_id) => Ok(file_id),
            None => Err(destroy_layout_failure(ManagedObject::VLogDirectory)),
        },
        None => Err(destroy_layout_failure(ManagedObject::VLogDirectory)),
    }
}

/// Checks that an entry of the directory of the log is a file, and that its length is one that
/// a file can have. `None` stands for an entry that is no regular file.
pub fn check_destroy_length(file_id: u32, len: Option<u64>) -> (result: Result<()>)
    ensures
        match len {
            None => result matches Err(error) && error@ == destroy_layout_view(
                (ManagedObject::VLogFile { file_id }),
            ),
            Some(len) => if len > MAX_VLOG_FILE_SIZE || len < PAGE_HEADER_ENCODED_LEN
                + FILE_HEADER_ENCODED_LEN {
                result matches Err(error) && error@ == destroy_corruption_view(
                    (ManagedObject::VLogFile { file_id }),
                )
            } else {
                result is Ok
            },
        },
{
    match len {
        None => Err(destroy_layout_failure(ManagedObject::VLogFile { file_id })),
        Some(len) => {
            if len > MAX_VLOG_FILE_SIZE || len < (PAGE_HEADER_ENCODED_LEN
                + FILE_HEADER_ENCODED_LEN) as u64 {
                return Err(destroy_corruption_failure(ManagedObject::VLogFile { file_id }));
            }
            Ok(())
        },
    }
}

/// Checks the headers of a file against the format of the database.
pub fn check_destroy_headers(file_id: u32, encoded: &[u8], format: &FormatMetadataV0) -> (result: Result<
    (),
>)
    requires
        encoded@.len() == PAGE_HEADER_ENCODED_LEN + FILE_HEADER_ENCODED_LEN,
        format.valid(),
        file_id <= MAX_VLOG_FILE_ID,
    ensures
        ({
            let page = encoded@.take(PAGE_HEADER_ENCODED_LEN as int);
            let file = encoded@.skip(PAGE_HEADER_ENCODED_LEN as int);
            let some_page = exists|header: PageHeader|
                header.valid() && page == #[trigger] header.encoded();
            let own = page == (PageHeader { file_id, page_no: 0 }).encoded() && file
                == new_file_header(format.database_uuid@, file_id);
            match result {
                Ok(_) => own,
                Err(error) => !own && error@ == inventory_failure(
                    inventory_view(
                        if some_page && file_header_of_other_version(file) {
                            StorageErrorKind::IncompatibleFormat
                        } else {
                            StorageErrorKind::Corruption
                        },
                    ),
                    (ManagedObject::VLogFile { file_id }),
                ),
            }
        }),
{
    match validate_file_identity(encoded, file_id, format) {
        Ok(_) => Ok(()),
        Err(error) => Err(
            destroy_failure(
                error,
                ManagedObject::VLogFile { file_id },
                DestroyStage::Inventory,
                false,
            ),
        ),
    }
}

/// Adds a file that was checked.
pub fn add_destroy_file(
    inventory: &mut ManagedInventory,
    memory: &mut Memory,
    entry: VLogInventoryEntry,
) -> (result: Result<()>)
    requires
        in_file_order(old(inventory).vlog_files@),
        !old(memory).refused(),
    ensures
        in_file_order(final(inventory).vlog_files@),
        in_strict_file_order(old(inventory).vlog_files@) && !lists_file(
            old(inventory).vlog_files@,
            entry.file_id,
        ) ==> in_strict_file_order(final(inventory).vlog_files@),
        match result {
            Ok(_) => !final(memory).refused() && exists|i: int|
                0 <= i <= old(inventory).vlog_files@.len() && final(inventory).vlog_files@
                    == #[trigger] old(inventory).vlog_files@.insert(i, entry),
            Err(error) => {
                &&& final(memory).refused()
                &&& error@ == destroy_memory_view(ManagedObject::VLogDirectory)
                &&& final(inventory).vlog_files@ == old(inventory).vlog_files@
            },
        },
        asked(*old(memory), *final(memory), 1, old(inventory).vlog_files@.len() + 1),
{
    match inventory.add(memory, entry) {
        Ok(_) => Ok(()),
        Err(_) => Err(destroy_resource_failure(ManagedObject::VLogDirectory)),
    }
}

/// One step on the way to no database.
#[derive(Clone, Copy, Debug, PartialEq, Eq, Structural)]
pub enum DestroyAction {
    OpenVLogDirectory,
    RemoveVLogFile { file_id: u32 },
    SyncVLogDirectory,
    RemoveVLogDirectory,
    RemoveIndex,
    RemoveTemporaryFormat,
    RemoveFormat,
    /// Bring to the disk that an object is gone.
    SyncRoot { gone: ManagedObject },
}

impl DestroyAction {
    /// What a step is about.
    pub open spec fn subject(self) -> ManagedObject {
        match self {
            DestroyAction::OpenVLogDirectory
            | DestroyAction::SyncVLogDirectory
            | DestroyAction::RemoveVLogDirectory => ManagedObject::VLogDirectory,
            DestroyAction::RemoveVLogFile { file_id } => ManagedObject::VLogFile { file_id },
            DestroyAction::RemoveIndex => ManagedObject::IndexDirectory,
            DestroyAction::RemoveTemporaryFormat => ManagedObject::FormatTemporary,
            DestroyAction::RemoveFormat => ManagedObject::Format,
            DestroyAction::SyncRoot { gone } => gone,
        }
    }

    pub open spec fn part(self) -> DestroyStage {
        match self {
            DestroyAction::OpenVLogDirectory => DestroyStage::Inventory,
            DestroyAction::RemoveVLogFile { .. }
            | DestroyAction::RemoveTemporaryFormat
            | DestroyAction::RemoveFormat => DestroyStage::RemoveFile,
            DestroyAction::RemoveVLogDirectory | DestroyAction::RemoveIndex =>
                DestroyStage::RemoveTree,
            DestroyAction::SyncVLogDirectory | DestroyAction::SyncRoot { .. } =>
                DestroyStage::SyncDirectory,
        }
    }

    pub fn object(&self) -> (object: ManagedObject)
        ensures
            object == self.subject(),
    {
        match *self {
            DestroyAction::OpenVLogDirectory
            | DestroyAction::SyncVLogDirectory
            | DestroyAction::RemoveVLogDirectory => ManagedObject::VLogDirectory,
            DestroyAction::RemoveVLogFile { file_id } => ManagedObject::VLogFile { file_id },
            DestroyAction::RemoveIndex => ManagedObject::IndexDirectory,
            DestroyAction::RemoveTemporaryFormat => ManagedObject::FormatTemporary,
            DestroyAction::RemoveFormat => ManagedObject::Format,
            DestroyAction::SyncRoot { gone } => gone,
        }
    }

    pub fn stage(&self) -> (stage: DestroyStage)
        ensures
            stage == self.part(),
    {
        match *self {
            DestroyAction::OpenVLogDirectory => DestroyStage::Inventory,
            DestroyAction::RemoveVLogFile { .. }
            | DestroyAction::RemoveTemporaryFormat
            | DestroyAction::RemoveFormat => DestroyStage::RemoveFile,
            DestroyAction::RemoveVLogDirectory | DestroyAction::RemoveIndex =>
                DestroyStage::RemoveTree,
            DestroyAction::SyncVLogDirectory | DestroyAction::SyncRoot { .. } =>
                DestroyStage::SyncDirectory,
        }
    }
}

/// The removal of the files, the last one first.
pub open spec fn file_actions(files: Seq<VLogInventoryEntry>) -> Seq<DestroyAction> {
    Seq::new(
        files.len(),
        |i: int| DestroyAction::RemoveVLogFile { file_id: files[files.len() - 1 - i].file_id },
    )
}

/// The steps that remove the log. Where it is gone already, that is brought to the disk before
/// the index is touched.
pub open spec fn vlog_actions(
    inspection: DestroyInspection,
    files: Seq<VLogInventoryEntry>,
) -> Seq<DestroyAction> {
    let gone = DestroyAction::SyncRoot { gone: ManagedObject::VLogDirectory };
    if inspection.vlog_present {
        seq![DestroyAction::OpenVLogDirectory] + file_actions(files) + seq![
            DestroyAction::SyncVLogDirectory,
            DestroyAction::RemoveVLogDirectory,
            gone,
        ]
    } else if inspection.index_present {
        seq![gone]
    } else {
        Seq::empty()
    }
}

pub open spec fn index_actions(inspection: DestroyInspection) -> Seq<DestroyAction> {
    let gone = DestroyAction::SyncRoot { gone: ManagedObject::IndexDirectory };
    if inspection.index_present {
        seq![DestroyAction::RemoveIndex, gone]
    } else {
        seq![gone]
    }
}

pub open spec fn format_actions(format: DestroyFormat) -> Seq<DestroyAction> {
    match format {
        DestroyFormat::Neither => Seq::empty(),
        DestroyFormat::Temporary => seq![
            DestroyAction::RemoveTemporaryFormat,
            DestroyAction::SyncRoot { gone: ManagedObject::FormatTemporary },
        ],
        DestroyFormat::Published => seq![
            DestroyAction::RemoveFormat,
            DestroyAction::SyncRoot { gone: ManagedObject::Format },
        ],
    }
}

/// The steps that destroy a database, in their order.
pub open spec fn destroy_actions(
    inspection: DestroyInspection,
    files: Seq<VLogInventoryEntry>,
) -> Seq<DestroyAction> {
    if inspection.format == DestroyFormat::Neither {
        seq![DestroyAction::SyncRoot { gone: ManagedObject::Format }]
    } else {
        vlog_actions(inspection, files) + index_actions(inspection) + format_actions(
            inspection.format,
        )
    }
}

/// The destruction of a database on its way.
pub struct DestroyRun {
    actions: Vec<DestroyAction>,
    taken: usize,
    partially_deleted: bool,
}

/// A destruction as a mathematical value: the steps, how many of them are done, and whether
/// anything has been removed.
#[verifier::ext_equal]
pub struct DestroyRunView {
    pub actions: Seq<DestroyAction>,
    pub taken: nat,
    pub partially_deleted: bool,
}

impl View for DestroyRun {
    type V = DestroyRunView;

    closed spec fn view(&self) -> DestroyRunView {
        DestroyRunView {
            actions: self.actions@,
            taken: self.taken as nat,
            partially_deleted: self.partially_deleted,
        }
    }
}

impl DestroyRun {
    /// Begins to destroy what was found.
    pub fn begin(inspection: &DestroyInspection, inventory: &ManagedInventory) -> (run: Self)
        ensures
            run@ == (DestroyRunView {
                actions: destroy_actions(*inspection, inventory.vlog_files@),
                taken: 0,
                partially_deleted: false,
            }),
    {
        let ghost files = inventory.vlog_files@;
        let mut actions: Vec<DestroyAction> = Vec::new();
        if inspection.format == DestroyFormat::Neither {
            actions.push(DestroyAction::SyncRoot { gone: ManagedObject::Format });
            proof {
                assert(actions@ =~= destroy_actions(*inspection, files));
            }
            return DestroyRun { actions, taken: 0, partially_deleted: false };
        }
        if inspection.vlog_present {
            actions.push(DestroyAction::OpenVLogDirectory);
            let count: usize = inventory.vlog_files.len();
            let mut i: usize = 0;
            while i < count
                invariant
                    count == files.len(),
                    files == inventory.vlog_files@,
                    i <= count,
                    actions@ =~= seq![DestroyAction::OpenVLogDirectory] + file_actions(files).take(
                        i as int,
                    ),
                decreases count - i,
            {
                actions.push(
                    DestroyAction::RemoveVLogFile {
                        file_id: inventory.vlog_files[count - 1 - i].file_id,
                    },
                );
                i = i + 1;
            }
            actions.push(DestroyAction::SyncVLogDirectory);
            actions.push(DestroyAction::RemoveVLogDirectory);
            actions.push(DestroyAction::SyncRoot { gone: ManagedObject::VLogDirectory });
        } else if inspection.index_present {
            actions.push(DestroyAction::SyncRoot { gone: ManagedObject::VLogDirectory });
        }
        proof {
            assert(file_actions(files).take(files.len() as int) =~= file_actions(files));
            assert(actions@ =~= vlog_actions(*inspection, files));
        }
        if inspection.index_present {
            actions.push(DestroyAction::RemoveIndex);
        }
        actions.push(DestroyAction::SyncRoot { gone: ManagedObject::IndexDirectory });
        match inspection.format {
            DestroyFormat::Neither => {},
            DestroyFormat::Temporary => {
                actions.push(DestroyAction::RemoveTemporaryFormat);
                actions.push(DestroyAction::SyncRoot { gone: ManagedObject::FormatTemporary });
            },
            DestroyFormat::Published => {
                actions.push(DestroyAction::RemoveFormat);
                actions.push(DestroyAction::SyncRoot { gone: ManagedObject::Format });
            },
        }
        proof {
            assert(actions@ =~= destroy_actions(*inspection, files));
        }
        DestroyRun { actions, taken: 0, partially_deleted: false }
    }

    /// The next step, or `None` when there is no database any more.
    pub fn next(&self) -> (action: Option<DestroyAction>)
        ensures
            action == (if self@.taken < self@.actions.len() {
                Some(self@.actions[self@.taken as int])
            } else {
                None
            }),
    {
        if self.taken < self.actions.len() {
            Some(self.actions[self.taken])
        } else {
            None
        }
    }

    /// The next step is done. `removed` says whether it removed anything.
    pub fn done(&mut self, removed: bool)
        ensures
            final(self)@ == (if old(self)@.taken < old(self)@.actions.len() {
                DestroyRunView {
                    taken: old(self)@.taken + 1,
                    partially_deleted: old(self)@.partially_deleted || removed,
                    ..old(self)@
                }
            } else {
                old(self)@
            }),
    {
        if self.taken < self.actions.len() {
            self.taken = self.taken + 1;
            self.partially_deleted = self.partially_deleted || removed;
        }
    }

    /// The next step failed, perhaps after it had removed something. Tells where the
    /// destruction stopped.
    pub fn failed(&self, error: StorageError, removed: bool) -> (told: StorageError)
        ensures
            self@.taken < self@.actions.len() ==> ({
                let action = self@.actions[self@.taken as int];
                told@ == destroy_view(
                    error@,
                    action.subject(),
                    action.part(),
                    self@.partially_deleted || removed,
                )
            }),
            self@.taken >= self@.actions.len() ==> told@ == error@,
    {
        if self.taken < self.actions.len() {
            let action = self.actions[self.taken];
            return destroy_failure(
                error,
                action.object(),
                action.stage(),
                self.partially_deleted || removed,
            );
        }
        error
    }
}

/// When an object's turn comes: the log, the index, the format file that was not finished, the
/// format file.
pub open spec fn turn(object: ManagedObject) -> int {
    match object {
        ManagedObject::VLogFile { .. } | ManagedObject::VLogDirectory => 0,
        ManagedObject::IndexDirectory | ManagedObject::DatabaseIdentity => 1,
        ManagedObject::FormatTemporary => 2,
        ManagedObject::Format | ManagedObject::Lock => 3,
    }
}

/// The log goes first, then the index, and the format file last: as long as anything is left, it
/// can be told what it was. Before the next object's turn, it is on the disk that the one before
/// is gone.
pub proof fn law_format_goes_last(
    inspection: DestroyInspection,
    files: Seq<VLogInventoryEntry>,
    i: int,
    j: int,
)
    requires
        0 <= i < j < destroy_actions(inspection, files).len(),
    ensures
        ({
            let actions = destroy_actions(inspection, files);
            &&& turn(actions[i].subject()) <= turn(actions[j].subject())
            &&& turn(actions[i].subject()) < turn(actions[j].subject()) ==> exists|k: int|
                i <= k < j && turn(actions[k].subject()) == turn(actions[i].subject())
                    && #[trigger] actions[k] is SyncRoot
        }),
{
    let actions = destroy_actions(inspection, files);
    let log = vlog_actions(inspection, files);
    let index = index_actions(inspection);
    let format = format_actions(inspection.format);
    if inspection.format != DestroyFormat::Neither {
        assert forall|k: int| 0 <= k < actions.len() implies turn(
            (#[trigger] actions[k]).subject(),
        ) == (if k < log.len() {
            0int
        } else if k < log.len() + index.len() {
            1
        } else if inspection.format == DestroyFormat::Temporary {
            2
        } else {
            3
        }) by {
            if k < log.len() {
                assert(actions[k] == log[k]);
                if inspection.vlog_present && 1 <= k < 1 + files.len() {
                    assert(log[k] == file_actions(files)[k - 1]);
                }
            } else if k < log.len() + index.len() {
                assert(actions[k] == index[k - log.len()]);
            } else {
                assert(actions[k] == format[k - log.len() - index.len()]);
            }
        }
        let end = if i < log.len() {
            log.len() - 1
        } else {
            log.len() + index.len() - 1
        };
        if turn(actions[i].subject()) < turn(actions[j].subject()) {
            assert(i <= end < j);
            if i < log.len() {
                assert(actions[end] == log[log.len() - 1]);
            } else {
                assert(actions[end] == index[index.len() - 1]);
            }
            assert(actions[end] is SyncRoot);
        }
    }
}

/// Where an action is among those of a destruction.
pub open spec fn takes(
    inspection: DestroyInspection,
    files: Seq<VLogInventoryEntry>,
    action: DestroyAction,
) -> bool {
    exists|i: int|
        0 <= i < destroy_actions(inspection, files).len() && #[trigger] destroy_actions(
            inspection,
            files,
        )[i] == action
}

proof fn lemma_taken(
    inspection: DestroyInspection,
    files: Seq<VLogInventoryEntry>,
    action: DestroyAction,
)
    requires
        inspection.format != DestroyFormat::Neither,
    ensures
        takes(inspection, files, action) == (vlog_actions(inspection, files).contains(action)
            || index_actions(inspection).contains(action) || format_actions(
            inspection.format,
        ).contains(action)),
{
    let all = destroy_actions(inspection, files);
    let log = vlog_actions(inspection, files);
    let index = index_actions(inspection);
    let format = format_actions(inspection.format);
    if takes(inspection, files, action) {
        let i = choose|i: int| 0 <= i < all.len() && #[trigger] all[i] == action;
        if i < log.len() {
            assert(log[i] == action);
        } else if i < log.len() + index.len() {
            assert(index[i - log.len()] == action);
        } else {
            assert(format[i - log.len() - index.len()] == action);
        }
    }
    if log.contains(action) {
        let i = choose|i: int| 0 <= i < log.len() && log[i] == action;
        assert(all[i] == action);
    }
    if index.contains(action) {
        let i = choose|i: int| 0 <= i < index.len() && index[i] == action;
        assert(all[log.len() + i] == action);
    }
    if format.contains(action) {
        let i = choose|i: int| 0 <= i < format.len() && format[i] == action;
        assert(all[log.len() + index.len() + i] == action);
    }
}

/// A destruction removes everything that was found and nothing else: every file that is listed of
/// a log that is there, the directory of the log, the index, and the format file that was found.
pub proof fn law_destruction_removes_what_was_found(
    inspection: DestroyInspection,
    files: Seq<VLogInventoryEntry>,
    file_id: u32,
)
    requires
        inspection.format != DestroyFormat::Neither,
    ensures
        takes(inspection, files, DestroyAction::RemoveVLogFile { file_id }) <==> (
        inspection.vlog_present && exists|k: int|
            0 <= k < files.len() && (#[trigger] files[k]).file_id == file_id),
        takes(inspection, files, DestroyAction::RemoveVLogDirectory) <==> inspection.vlog_present,
        takes(inspection, files, DestroyAction::OpenVLogDirectory) <==> inspection.vlog_present,
        takes(inspection, files, DestroyAction::RemoveIndex) <==> inspection.index_present,
        takes(inspection, files, DestroyAction::RemoveFormat) <==> inspection.format
            == DestroyFormat::Published,
        takes(inspection, files, DestroyAction::RemoveTemporaryFormat) <==> inspection.format
            == DestroyFormat::Temporary,
        takes(
            inspection,
            files,
            DestroyAction::SyncRoot { gone: ManagedObject::IndexDirectory },
        ),
        inspection.vlog_present ==> takes(inspection, files, DestroyAction::SyncVLogDirectory),
        inspection.vlog_present || inspection.index_present ==> takes(
            inspection,
            files,
            DestroyAction::SyncRoot { gone: ManagedObject::VLogDirectory },
        ),
{
    let log = vlog_actions(inspection, files);
    let index = index_actions(inspection);
    let format = format_actions(inspection.format);
    let n = files.len() as int;
    let remove = DestroyAction::RemoveVLogFile { file_id };
    lemma_taken(inspection, files, remove);
    lemma_taken(inspection, files, DestroyAction::RemoveVLogDirectory);
    lemma_taken(inspection, files, DestroyAction::OpenVLogDirectory);
    lemma_taken(inspection, files, DestroyAction::SyncVLogDirectory);
    lemma_taken(inspection, files, DestroyAction::RemoveIndex);
    lemma_taken(inspection, files, DestroyAction::RemoveFormat);
    lemma_taken(inspection, files, DestroyAction::RemoveTemporaryFormat);
    lemma_taken(
        inspection,
        files,
        DestroyAction::SyncRoot { gone: ManagedObject::IndexDirectory },
    );
    lemma_taken(
        inspection,
        files,
        DestroyAction::SyncRoot { gone: ManagedObject::VLogDirectory },
    );
    assert(index.contains(DestroyAction::SyncRoot { gone: ManagedObject::IndexDirectory })) by {
        assert(index.last() is SyncRoot);
    }
    if inspection.index_present {
        assert(index[0] is RemoveIndex);
    }
    assert(format[0] is RemoveFormat || format[0] is RemoveTemporaryFormat);
    if inspection.vlog_present {
        assert(log.len() == n + 4);
        assert(log[0] is OpenVLogDirectory);
        assert(log[n + 1] is SyncVLogDirectory);
        assert(log[n + 2] is RemoveVLogDirectory);
        assert(log[n + 3] is SyncRoot);
        assert forall|k: int| 0 <= k < n implies log[n - k]
            == (DestroyAction::RemoveVLogFile { file_id: (#[trigger] files[k]).file_id }) by {
            assert(log[n - k] == file_actions(files)[n - 1 - k]);
        }
        if log.contains(remove) {
            let i = choose|i: int| 0 <= i < log.len() && log[i] == remove;
            assert(1 <= i <= n);
            assert(files[n - i].file_id == file_id);
        }
    } else if inspection.index_present {
        assert(log[0] is SyncRoot);
    }
    assert forall|i: int| 0 <= i < log.len() implies !(#[trigger] log[i] is RemoveIndex)
        && !(log[i] is RemoveFormat) && !(log[i] is RemoveTemporaryFormat) by {
        if inspection.vlog_present && 1 <= i <= n {
            assert(log[i] == file_actions(files)[i - 1]);
        }
    }
}

/// A file of the log goes before its directory does, and the removal of a file is on the disk
/// before the directory goes.
pub proof fn law_directory_of_log_is_empty_when_it_goes(
    inspection: DestroyInspection,
    files: Seq<VLogInventoryEntry>,
    i: int,
    j: int,
)
    requires
        inspection.format != DestroyFormat::Neither,
        0 <= i < destroy_actions(inspection, files).len(),
        0 <= j < destroy_actions(inspection, files).len(),
        destroy_actions(inspection, files)[j] is RemoveVLogDirectory,
        destroy_actions(inspection, files)[i] is RemoveVLogFile,
    ensures
        i < j - 1,
        destroy_actions(inspection, files)[j - 1] is SyncVLogDirectory,
{
    let all = destroy_actions(inspection, files);
    let log = vlog_actions(inspection, files);
    let n = files.len() as int;
    assert(j < log.len()) by {
        if j >= log.len() {
            assert(all[j] == (index_actions(inspection) + format_actions(
                inspection.format,
            ))[j - log.len()]);
        }
    }
    assert(i < log.len()) by {
        if i >= log.len() {
            assert(all[i] == (index_actions(inspection) + format_actions(
                inspection.format,
            ))[i - log.len()]);
        }
    }
    assert(all[j] == log[j] && all[i] == log[i] && all[j - 1] == log[j - 1]);
    if 1 <= j <= n {
        assert(log[j] == file_actions(files)[j - 1]);
    }
    assert(j == n + 2);
}

/// What is found is refused exactly where it is not what is left of a database: something else
/// stands where a directory should be, a directory is there without any format file, or the log
/// is there without the index. Nothing that was found is overlooked.
pub proof fn law_destruction_is_refused_for_a_reason(
    format: DestroyFormat,
    index: ManagedEntryKind,
    vlog: ManagedEntryKind,
)
    ensures
        ({
            let there = |kind: ManagedEntryKind| kind == ManagedEntryKind::Directory;
            let odd = |kind: ManagedEntryKind|
                kind != ManagedEntryKind::Directory && kind != ManagedEntryKind::Missing;
            let refusal = destroy_refusal(format, index, vlog);
            &&& refusal is Some <==> odd(index) || odd(vlog) || (format == DestroyFormat::Neither
                && (there(index) || there(vlog))) || (format == DestroyFormat::Published && !there(
                index,
            ) && there(vlog))
            &&& refusal matches Some(error) ==> {
                &&& error.operation == Operation::Destroy
                &&& error.destroy_failure matches Some(context) && !context.partially_deleted
                    && context.stage == DestroyStage::Inventory
                &&& error.kind == (if odd(index) || odd(vlog) || format
                    == DestroyFormat::Neither {
                    StorageErrorKind::InvalidLayout
                } else {
                    StorageErrorKind::Corruption
                })
            }
        }),
{
}

/// The files go in the reverse order of their numbers, so that those that are left are always
/// the first ones, and each goes once where each is listed once.
pub proof fn law_files_go_last_first(files: Seq<VLogInventoryEntry>, i: int, j: int)
    requires
        in_file_order(files),
        0 <= i < j < files.len(),
    ensures
        file_actions(files)[i]->file_id >= file_actions(files)[j]->file_id,
        in_strict_file_order(files) ==> file_actions(files)[i]->file_id > file_actions(
            files,
        )[j]->file_id,
{
}

/// A destruction that fails tells what it failed at and which part of the work that was, and
/// whether anything is gone already; the error itself stays what it was.
pub proof fn law_failed_destruction_is_told_of(
    error: ErrorView,
    action: DestroyAction,
    partially_deleted: bool,
)
    ensures
        ({
            let told = destroy_view(error, action.subject(), action.part(), partially_deleted);
            let context = told.destroy_failure->0;
            &&& told.kind == error.kind
            &&& told.os_code == error.os_code
            &&& told.operation == Operation::Destroy
            &&& told.protocol_stage == ProtocolStage::Lifecycle
            &&& told.write_outcome is None
            &&& told.instance_state is None
            &&& told.destroy_failure is Some
            &&& context.failed_object == action.subject()
            &&& context.partially_deleted == partially_deleted
            &&& context.os_code == error.os_code
            &&& context.stage == DestroyStage::SyncDirectory <==> action is SyncVLogDirectory
                || action is SyncRoot
            &&& context.stage == DestroyStage::RemoveTree <==> action is RemoveVLogDirectory
                || action is RemoveIndex
            &&& context.stage == DestroyStage::RemoveFile <==> action is RemoveVLogFile
                || action is RemoveTemporaryFormat || action is RemoveFormat
            &&& action.subject() == ManagedObject::IndexDirectory <==> action is RemoveIndex
                || action == (DestroyAction::SyncRoot { gone: ManagedObject::IndexDirectory })
            &&& action.subject() == ManagedObject::Format <==> action is RemoveFormat || action == (
            DestroyAction::SyncRoot { gone: ManagedObject::Format })
            &&& action.subject() == ManagedObject::FormatTemporary
                <==> action is RemoveTemporaryFormat || action == (DestroyAction::SyncRoot {
                gone: ManagedObject::FormatTemporary,
            })
            &&& action matches DestroyAction::RemoveVLogFile { file_id } ==> action.subject()
                == (ManagedObject::VLogFile { file_id })
            &&& action is OpenVLogDirectory || action is SyncVLogDirectory
                || action is RemoveVLogDirectory ==> action.subject()
                == ManagedObject::VLogDirectory
        }),
{
}

/// What lies under a name of the database fits where nothing does, or what belongs there.
pub proof fn law_only_managed_kinds_are_destroyed(kind: ManagedEntryKind)
    ensures
        fits_file(kind) <==> match kind {
            ManagedEntryKind::Missing | ManagedEntryKind::RegularFile { .. } => true,
            _ => false,
        },
        fits_directory(kind) <==> match kind {
            ManagedEntryKind::Missing | ManagedEntryKind::Directory => true,
            _ => false,
        },
{
}

/// An index may be found in parts only where a destruction has been there before: the database is
/// published still, and its log is gone. What fails before anything is removed says so, and without
/// memory it may be tried again.
pub proof fn law_parts_of_an_index_are_left_by_a_destruction(
    inspection: DestroyInspection,
    failure: IoFailure,
    object: ManagedObject,
    stage: DestroyStage,
    partially_deleted: bool,
)
    ensures
        inspection.vlog_present ==> !inspection.allows_partial_index(),
        inspection.format == DestroyFormat::Temporary || inspection.format == DestroyFormat::Neither
            ==> !inspection.allows_partial_index(),
        inspection.format == DestroyFormat::Published && !inspection.vlog_present
            ==> inspection.allows_partial_index(),
        ({
            let failed = destroy_io_view(failure, object, stage, partially_deleted);
            let context = failed.destroy_failure->0;
            &&& failed.kind == StorageErrorKind::Io && failed.os_code == failure.os_code
            &&& failed.retry_advice == RetryAdvice::FixEnvironmentAndReopen
            &&& failed.destroy_failure is Some && context.failed_object == object
            &&& context.stage == stage && context.partially_deleted == partially_deleted
            &&& context.os_code == failure.os_code
        }),
        ({
            let failed = destroy_memory_view(object);
            let context = failed.destroy_failure->0;
            &&& failed.kind == StorageErrorKind::ResourceExhausted
            &&& failed.retry_advice == RetryAdvice::RetrySameInstance
            &&& failed.destroy_failure is Some && context.failed_object == object
            &&& context.stage == DestroyStage::Inventory && !context.partially_deleted
        }),
{
}

} // verus!
