//! Opening: which of its files say that a database is there, and in what order a new one comes
//! into being.

use vstd::prelude::*;

use crate::bytes::{same_bytes, zeros};
use crate::commit::descriptor::{entry_views, EntryView, IndexEntry};
use crate::commit::metadata::{check_identity, identity_refusal, metadata_decode_view};
use crate::db::failure::{
    inventory_corruption, inventory_corruption_view, metadata_error, metadata_view,
};
use crate::error::{
    detached_error, ErrorView, Operation, ProtocolStage, Result, RetryAdvice, StorageError,
    StorageErrorKind,
};
use crate::format::FormatMetadataV0;
use crate::index::batch::{
    database_identity_key, database_identity_name, durable_frontier_key, durable_frontier_name,
    empty_frontier, head_seq_key, head_seq_name, is_encoded_empty_durable_frontier,
    is_encoded_head_seq_zero, lemma_system_keys_differ,
};
use crate::recovery::analysis::{identity_failure, required, IndexRead};
use crate::recovery::topology::VLogInventoryEntry;
use crate::recovery::{recovery_context, seen_by_recovery};
use crate::root::{
    invalid_argument_error, layout_error, not_found_error, open_preflight_view, ManagedEntryKind,
};
use crate::vlog::header::{is_identifier, is_nonzero_uuid, same_uuid};

verus! {

/// The format file and the one it is written as first are never both there, whatever is in
/// them.
pub fn check_coexistence(format: ManagedEntryKind, temporary: ManagedEntryKind) -> (result: Result<()>)
    ensures
        ({
            let both = format != ManagedEntryKind::Missing && temporary
                != ManagedEntryKind::Missing;
            match result {
                Ok(_) => !both,
                Err(error) => both && error@ == open_preflight_view(
                    StorageErrorKind::InvalidLayout,
                ),
            }
        }),
{
    if format != ManagedEntryKind::Missing && temporary != ManagedEntryKind::Missing {
        return Err(layout_error());
    }
    Ok(())
}

/// How a database is opened.
#[derive(Clone, Copy, Debug, PartialEq, Eq, Structural)]
pub enum OpenPath {
    /// It is there.
    Existing,
    /// Someone began to make it, and did not end.
    Interrupted,
    /// There is none.
    Absent,
}

/// Decides by the two format files that were read.
pub fn choose_path(
    format: &Option<FormatMetadataV0>,
    temporary: &Option<FormatMetadataV0>,
) -> (result: Result<OpenPath>)
    ensures
        match (*format, *temporary) {
            (Some(_), Some(_)) => result matches Err(error) && error@ == open_preflight_view(
                StorageErrorKind::InvalidLayout,
            ),
            (Some(_), None) => result == Ok::<OpenPath, StorageError>(OpenPath::Existing),
            (None, Some(_)) => result == Ok::<OpenPath, StorageError>(OpenPath::Interrupted),
            (None, None) => result == Ok::<OpenPath, StorageError>(OpenPath::Absent),
        },
{
    match (format, temporary) {
        (Some(_), Some(_)) => Err(layout_error()),
        (Some(_), None) => Ok(OpenPath::Existing),
        (None, Some(_)) => Ok(OpenPath::Interrupted),
        (None, None) => Ok(OpenPath::Absent),
    }
}

/// Whether a database may be made where there is none. Without a format file, nothing else of a
/// database may be there.
pub fn check_absent(index: ManagedEntryKind, vlog: ManagedEntryKind, create_if_missing: bool) -> (result:
    Result<()>)
    ensures
        if index != ManagedEntryKind::Missing || vlog != ManagedEntryKind::Missing {
            result matches Err(error) && error@ == open_preflight_view(
                StorageErrorKind::InvalidLayout,
            )
        } else if !create_if_missing {
            result matches Err(error) && error@ == open_preflight_view(StorageErrorKind::NotFound)
        } else {
            result is Ok
        },
{
    if index != ManagedEntryKind::Missing || vlog != ManagedEntryKind::Missing {
        return Err(layout_error());
    }
    check_creation(create_if_missing)
}

/// Whether a database may be made.
pub fn check_creation(create_if_missing: bool) -> (result: Result<()>)
    ensures
        match result {
            Ok(_) => create_if_missing,
            Err(error) => !create_if_missing && error@ == open_preflight_view(
                StorageErrorKind::NotFound,
            ),
        },
{
    if !create_if_missing {
        return Err(not_found_error());
    }
    Ok(())
}

/// Whether a database that is there may be opened.
pub fn check_existing(error_if_exists: bool) -> (result: Result<()>)
    ensures
        match result {
            Ok(_) => !error_if_exists,
            Err(error) => error_if_exists && error@ == open_preflight_view(
                StorageErrorKind::InvalidArgument,
            ),
        },
{
    if error_if_exists {
        return Err(invalid_argument_error());
    }
    Ok(())
}

/// The directory of the log, while a database is being made: there is nothing in it.
pub fn check_interrupted_vlog(kind: ManagedEntryKind, has_entries: bool) -> (result: Result<()>)
    ensures
        ({
            let fits = kind == ManagedEntryKind::Missing || (kind == ManagedEntryKind::Directory
                && !has_entries);
            match result {
                Ok(_) => fits,
                Err(error) => !fits && error@ == open_preflight_view(
                    StorageErrorKind::InvalidLayout,
                ),
            }
        }),
{
    match kind {
        ManagedEntryKind::Missing => Ok(()),
        ManagedEntryKind::Directory => {
            if has_entries {
                return Err(layout_error());
            }
            Ok(())
        },
        _ => Err(layout_error()),
    }
}

/// The directory of the index, while a database is being made. Says whether there is an index
/// to look into.
pub fn check_interrupted_directory(kind: ManagedEntryKind, has_entries: bool) -> (result: Result<
    bool,
>)
    ensures
        match kind {
            ManagedEntryKind::Missing => result == Ok::<bool, StorageError>(false),
            ManagedEntryKind::Directory => result == Ok::<bool, StorageError>(has_entries),
            _ => result matches Err(error) && error@ == open_preflight_view(
                StorageErrorKind::InvalidLayout,
            ),
        },
{
    match kind {
        ManagedEntryKind::Missing => Ok(false),
        ManagedEntryKind::Directory => Ok(has_entries),
        _ => Err(layout_error()),
    }
}

/// What was read of an index, in the order in which it is read. A scan that failed midway has
/// the entries before the failure.
pub struct IndexContents {
    pub identity: IndexRead,
    pub has_user_entries: Result<bool>,
    pub has_transaction_entries: Result<bool>,
    pub system_entries: Vec<IndexEntry>,
    pub system_failure: Option<StorageError>,
}

/// Which of the entries that a new index has were found.
pub struct FoundEntries {
    pub identity: bool,
    pub head: bool,
    pub frontier: bool,
}

/// Looks at one more entry of a new index. Each of them is there once, as it was written first.
pub open spec fn found_with(found: FoundEntries, entry: EntryView, identity: Seq<u8>) -> std::result::Result<
    FoundEntries,
    ErrorView,
> {
    if entry.key == database_identity_key() {
        if found.identity || entry.value != identity {
            Err(metadata_view(StorageErrorKind::Corruption))
        } else {
            Ok(FoundEntries { identity: true, ..found })
        }
    } else if entry.key == head_seq_key() {
        if found.head || entry.value != zeros(8) {
            Err(metadata_view(StorageErrorKind::Corruption))
        } else {
            Ok(FoundEntries { head: true, ..found })
        }
    } else if entry.key == durable_frontier_key() {
        if found.frontier || entry.value != empty_frontier().encoded() {
            Err(metadata_view(StorageErrorKind::Corruption))
        } else {
            Ok(FoundEntries { frontier: true, ..found })
        }
    } else {
        Err(open_preflight_view(StorageErrorKind::InvalidLayout))
    }
}

/// Looks at the first entries, one after the other.
pub open spec fn found_in(entries: Seq<EntryView>, count: int, identity: Seq<u8>) -> std::result::Result<
    FoundEntries,
    ErrorView,
>
    decreases count,
{
    if count <= 0 {
        Ok(FoundEntries { identity: false, head: false, frontier: false })
    } else {
        match found_in(entries, count - 1, identity) {
            Err(error) => Err(error),
            Ok(found) => found_with(found, entries[count - 1], identity),
        }
    }
}

/// Why an index is not one that was being made for a database: either it is empty, or it holds
/// what a new index holds, and nothing else.
pub open spec fn interrupted_refusal(
    contents: IndexContents,
    format: FormatMetadataV0,
) -> Option<ErrorView> {
    match contents.identity {
        Err(failure) => Some(seen_by_recovery(failure@)),
        Ok(None) => match contents.has_user_entries {
            Err(failure) => Some(seen_by_recovery(failure@)),
            Ok(true) => Some(open_preflight_view(StorageErrorKind::InvalidLayout)),
            Ok(false) => match contents.has_transaction_entries {
                Err(failure) => Some(seen_by_recovery(failure@)),
                Ok(true) => Some(open_preflight_view(StorageErrorKind::InvalidLayout)),
                Ok(false) => if contents.system_entries@.len() > 0 {
                    Some(open_preflight_view(StorageErrorKind::InvalidLayout))
                } else {
                    match contents.system_failure {
                        Some(failure) => Some(seen_by_recovery(failure@)),
                        None => None,
                    }
                },
            },
        },
        Ok(Some(identity)) => match identity_refusal(
            identity@,
            format.format_version,
            format.database_uuid@,
        ) {
            Some(kind) => Some(seen_by_recovery(metadata_decode_view(kind))),
            None => match contents.has_user_entries {
                Err(failure) => Some(seen_by_recovery(failure@)),
                Ok(true) => Some(open_preflight_view(StorageErrorKind::InvalidLayout)),
                Ok(false) => match contents.has_transaction_entries {
                    Err(failure) => Some(seen_by_recovery(failure@)),
                    Ok(true) => Some(open_preflight_view(StorageErrorKind::InvalidLayout)),
                    Ok(false) => match found_in(
                        entry_views(contents.system_entries@),
                        contents.system_entries@.len() as int,
                        identity@,
                    ) {
                        Err(error) => Some(error),
                        Ok(found) => match contents.system_failure {
                            Some(failure) => Some(seen_by_recovery(failure@)),
                            None => if found.identity && found.head && found.frontier {
                                None
                            } else {
                                Some(metadata_view(StorageErrorKind::Corruption))
                            },
                        },
                    },
                },
            },
        },
    }
}

/// No entry may be where one was looked for.
fn check_no_entries(has_entries: Result<bool>) -> (result: Result<()>)
    ensures
        match has_entries {
            Err(failure) => result matches Err(error) && error@ == seen_by_recovery(failure@),
            Ok(true) => result matches Err(error) && error@ == open_preflight_view(
                StorageErrorKind::InvalidLayout,
            ),
            Ok(false) => result is Ok,
        },
{
    match has_entries {
        Err(failure) => Err(recovery_context(failure)),
        Ok(true) => Err(layout_error()),
        Ok(false) => Ok(()),
    }
}

fn look_at_entry(found: FoundEntries, entry: &IndexEntry, identity: &[u8]) -> (result: Result<
    FoundEntries,
>)
    ensures
        match found_with(found, entry@, identity@) {
            Ok(next) => result matches Ok(given) && given == next,
            Err(view) => result matches Err(error) && error@ == view,
        },
{
    let key = entry.key.as_slice();
    let value = entry.value.as_slice();
    let identity_name = database_identity_name();
    let head_name = head_seq_name();
    let frontier_name = durable_frontier_name();
    if same_bytes(key, identity_name.as_slice()) {
        if found.identity || !same_bytes(value, identity) {
            return Err(metadata_error(StorageErrorKind::Corruption));
        }
        return Ok(FoundEntries { identity: true, head: found.head, frontier: found.frontier });
    }
    if same_bytes(key, head_name.as_slice()) {
        if found.head || !is_encoded_head_seq_zero(value) {
            return Err(metadata_error(StorageErrorKind::Corruption));
        }
        return Ok(FoundEntries { identity: found.identity, head: true, frontier: found.frontier });
    }
    if same_bytes(key, frontier_name.as_slice()) {
        if found.frontier || !is_encoded_empty_durable_frontier(value) {
            return Err(metadata_error(StorageErrorKind::Corruption));
        }
        return Ok(FoundEntries { identity: found.identity, head: found.head, frontier: true });
    }
    Err(layout_error())
}

fn look_at_entries(entries: &Vec<IndexEntry>, identity: &[u8]) -> (result: Result<FoundEntries>)
    ensures
        match found_in(entry_views(entries@), entries@.len() as int, identity@) {
            Ok(found) => result matches Ok(given) && given == found,
            Err(view) => result matches Err(error) && error@ == view,
        },
{
    let ghost views = entry_views(entries@);
    let mut found = FoundEntries { identity: false, head: false, frontier: false };
    let mut i: usize = 0;
    while i < entries.len()
        invariant
            i <= entries@.len(),
            views == entry_views(entries@),
            found_in(views, i as int, identity@) == Ok::<FoundEntries, ErrorView>(found),
        decreases entries@.len() - i,
    {
        proof {
            assert(views[i as int] == entries@[i as int]@);
        }
        match look_at_entry(found, &entries[i], identity) {
            Ok(next) => {
                found = next;
            },
            Err(error) => {
                proof {
                    lemma_found_error(views, i as int + 1, views.len() as int, identity@);
                }
                return Err(error);
            },
        }
        i = i + 1;
    }
    Ok(found)
}

/// What is behind an entry that is refused does not matter.
proof fn lemma_found_error(entries: Seq<EntryView>, count: int, total: int, identity: Seq<u8>)
    requires
        0 <= count <= total,
        found_in(entries, count, identity) is Err,
    ensures
        found_in(entries, total, identity) == found_in(entries, count, identity),
    decreases total,
{
    if count < total {
        lemma_found_error(entries, count, total - 1, identity);
    }
}

/// Checks an index that was being made for a database.
pub fn validate_interrupted_index(contents: IndexContents, format: &FormatMetadataV0) -> (result: Result<
    (),
>)
    ensures
        match interrupted_refusal(contents, *format) {
            None => result is Ok,
            Some(view) => result matches Err(error) && error@ == view,
        },
{
    let identity = match contents.identity {
        Err(failure) => return Err(recovery_context(failure)),
        Ok(identity) => identity,
    };
    match identity {
        None => {
            check_no_entries(contents.has_user_entries)?;
            check_no_entries(contents.has_transaction_entries)?;
            if contents.system_entries.len() > 0 {
                return Err(layout_error());
            }
            match contents.system_failure {
                Some(failure) => Err(recovery_context(failure)),
                None => Ok(()),
            }
        },
        Some(encoded) => {
            match check_identity(
                encoded.as_slice(),
                format.format_version,
                &format.database_uuid,
            ) {
                Ok(_) => {},
                Err(error) => return Err(recovery_context(error)),
            }
            check_no_entries(contents.has_user_entries)?;
            check_no_entries(contents.has_transaction_entries)?;
            let found = look_at_entries(&contents.system_entries, encoded.as_slice())?;
            match contents.system_failure {
                Some(failure) => return Err(recovery_context(failure)),
                None => {},
            }
            if found.identity && found.head && found.frontier {
                Ok(())
            } else {
                Err(metadata_error(StorageErrorKind::Corruption))
            }
        },
    }
}

/// Why an index is not the one of a database that is there.
pub open spec fn final_identity_refusal(
    identity: IndexRead,
    head: IndexRead,
    frontier: IndexRead,
    format: FormatMetadataV0,
) -> Option<ErrorView> {
    match identity_failure(identity, format.format_version, format.database_uuid@) {
        Some(failure) => Some(failure),
        None => match required(head) {
            Err(failure) => Some(failure),
            Ok(_) => match required(frontier) {
                Err(failure) => Some(failure),
                Ok(_) => None,
            },
        },
    }
}

fn require_entry(read: IndexRead) -> (result: Result<Vec<u8>>)
    ensures
        match required(read) {
            Ok(bytes) => result matches Ok(given) && given@ == bytes,
            Err(view) => result matches Err(error) && error@ == view,
        },
{
    match read {
        Err(failure) => Err(recovery_context(failure)),
        Ok(None) => Err(metadata_error(StorageErrorKind::Corruption)),
        Ok(Some(bytes)) => Ok(bytes),
    }
}

/// Checks that an index is the one of a database, and says how far it has come.
pub fn validate_final_identity(
    identity: IndexRead,
    head: IndexRead,
    frontier: IndexRead,
    format: &FormatMetadataV0,
) -> (result: Result<()>)
    ensures
        match final_identity_refusal(identity, head, frontier, *format) {
            None => result is Ok,
            Some(view) => result matches Err(error) && error@ == view,
        },
{
    let encoded = require_entry(identity)?;
    match check_identity(encoded.as_slice(), format.format_version, &format.database_uuid) {
        Ok(_) => {},
        Err(error) => return Err(recovery_context(error)),
    }
    require_entry(head)?;
    require_entry(frontier)?;
    Ok(())
}

/// How often an identifier is drawn for a new database.
pub const IDENTIFIER_DRAWS: usize = 4;

/// What to do with an identifier that was drawn.
pub enum IdentifierDraw {
    Use([u8; 16]),
    DrawAgain,
    GiveUp(StorageError),
}

/// Takes an identifier that was drawn by chance, after so many that could not be used. The zero
/// identifier cannot.
pub fn draw_identifier(earlier: usize, drawn: [u8; 16]) -> (draw: IdentifierDraw)
    ensures
        if is_identifier(drawn@) {
            draw == IdentifierDraw::Use(drawn)
        } else if earlier + 1 < IDENTIFIER_DRAWS {
            draw is DrawAgain
        } else {
            draw matches IdentifierDraw::GiveUp(error) && error@ == detached_error(
                StorageErrorKind::Unrecoverable,
                Operation::Open,
                ProtocolStage::Preflight,
                None,
                RetryAdvice::DoNotRetry,
            )
        },
{
    if is_nonzero_uuid(&drawn) {
        return IdentifierDraw::Use(drawn);
    }
    if earlier < IDENTIFIER_DRAWS - 1 {
        return IdentifierDraw::DrawAgain;
    }
    IdentifierDraw::GiveUp(
        StorageError::codec_error(
            StorageErrorKind::Unrecoverable,
            Operation::Open,
            ProtocolStage::Preflight,
            None,
            RetryAdvice::DoNotRetry,
        ),
    )
}

/// One step on the way to a new database.
#[derive(Clone, Copy, Debug, PartialEq, Eq, Structural)]
pub enum InitializationAction {
    /// Write the format file under its temporary name, and bring it to the disk.
    WriteTemporaryFormat,
    SyncRoot,
    CreateIndexDirectory,
    CreateVLogDirectory,
    CreateIndex,
    /// Commit what a new index holds.
    CommitIdentity,
    SyncIndex,
    SyncVLogDirectory,
    /// Read the format file back, under its temporary name.
    CheckTemporaryFormat,
    /// Give the format file its name.
    PublishFormat,
}

/// The steps to a new database, in their order.
pub open spec fn initialization_actions() -> Seq<InitializationAction> {
    seq![
        InitializationAction::WriteTemporaryFormat,
        InitializationAction::SyncRoot,
        InitializationAction::CreateIndexDirectory,
        InitializationAction::CreateVLogDirectory,
        InitializationAction::SyncRoot,
        InitializationAction::CreateIndex,
        InitializationAction::CommitIdentity,
        InitializationAction::SyncIndex,
        InitializationAction::SyncVLogDirectory,
        InitializationAction::SyncRoot,
        InitializationAction::CheckTemporaryFormat,
        InitializationAction::PublishFormat,
        InitializationAction::SyncRoot,
    ]
}

/// The step after so many, or `None` behind the last one.
pub fn initialization_action(taken: usize) -> (action: Option<InitializationAction>)
    ensures
        action == (if taken < initialization_actions().len() {
            Some(initialization_actions()[taken as int])
        } else {
            None
        }),
{
    match taken {
        0 => Some(InitializationAction::WriteTemporaryFormat),
        1 => Some(InitializationAction::SyncRoot),
        2 => Some(InitializationAction::CreateIndexDirectory),
        3 => Some(InitializationAction::CreateVLogDirectory),
        4 => Some(InitializationAction::SyncRoot),
        5 => Some(InitializationAction::CreateIndex),
        6 => Some(InitializationAction::CommitIdentity),
        7 => Some(InitializationAction::SyncIndex),
        8 => Some(InitializationAction::SyncVLogDirectory),
        9 => Some(InitializationAction::SyncRoot),
        10 => Some(InitializationAction::CheckTemporaryFormat),
        11 => Some(InitializationAction::PublishFormat),
        12 => Some(InitializationAction::SyncRoot),
        _ => None,
    }
}

/// The format file that was read back is the one that was written.
pub fn check_written_format(read: &Option<FormatMetadataV0>, format: &FormatMetadataV0) -> (result: Result<
    (),
>)
    ensures
        ({
            let same = *read matches Some(other) && other.format_version == format.format_version
                && other.database_uuid@ == format.database_uuid@ && other.page_size
                == format.page_size && other.max_key_value_size == format.max_key_value_size;
            match result {
                Ok(_) => same,
                Err(error) => !same && error@ == metadata_view(StorageErrorKind::Corruption),
            }
        }),
{
    match read {
        Some(other) => {
            if other.format_version == format.format_version && same_uuid(
                &other.database_uuid,
                &format.database_uuid,
            ) && other.page_size == format.page_size && other.max_key_value_size
                == format.max_key_value_size {
                return Ok(());
            }
        },
        None => {},
    }
    Err(metadata_error(StorageErrorKind::Corruption))
}

/// Whether the format file can be given its name: only the temporary one is there.
pub fn check_publishable(format: ManagedEntryKind, temporary: ManagedEntryKind) -> (result: Result<()>)
    ensures
        ({
            let ready = format == ManagedEntryKind::Missing && temporary is RegularFile;
            match result {
                Ok(_) => ready,
                Err(error) => !ready && error@ == open_preflight_view(
                    StorageErrorKind::InvalidLayout,
                ),
            }
        }),
{
    let is_regular = match temporary {
        ManagedEntryKind::RegularFile { .. } => true,
        _ => false,
    };
    if format != ManagedEntryKind::Missing || !is_regular {
        return Err(layout_error());
    }
    Ok(())
}

/// A file of the log that is opened has the length that it was found with.
pub fn check_inventory_file(entry: VLogInventoryEntry, len: u64) -> (result: Result<()>)
    ensures
        match result {
            Ok(_) => len == entry.len,
            Err(error) => len != entry.len && error@ == inventory_corruption_view(entry.file_id),
        },
{
    if len != entry.len {
        return Err(inventory_corruption(entry.file_id));
    }
    Ok(())
}

/// A database is there for others only when everything it needs is on the disk: its format file
/// gets its name after the index was committed and synced, and behind that only the new name is
/// brought to the disk.
pub proof fn law_format_is_published_last(published: int, other: int)
    requires
        0 <= published < initialization_actions().len(),
        0 <= other < initialization_actions().len(),
        initialization_actions()[published] == InitializationAction::PublishFormat,
    ensures
        published < other ==> initialization_actions()[other] == InitializationAction::SyncRoot,
        initialization_actions()[other] == InitializationAction::CommitIdentity
            || initialization_actions()[other] == InitializationAction::SyncIndex
            || initialization_actions()[other] == InitializationAction::SyncVLogDirectory ==> other
            < published - 2,
        initialization_actions()[published - 2] == InitializationAction::SyncRoot,
{
}

/// An index that was being made has no user's entry, and whatever it holds of itself is what a
/// new index holds: throwing it away loses nothing.
pub proof fn law_interrupted_index_holds_nothing(contents: IndexContents, format: FormatMetadataV0)
    requires
        interrupted_refusal(contents, format) is None,
    ensures
        contents.has_user_entries == Ok::<bool, StorageError>(false),
        contents.has_transaction_entries == Ok::<bool, StorageError>(false),
        forall|i: int|
            0 <= i < contents.system_entries@.len() ==> {
                let key = (#[trigger] contents.system_entries@[i]).key@;
                key == database_identity_key() || key == head_seq_key() || key
                    == durable_frontier_key()
            },
{
    if contents.system_entries@.len() > 0 {
        let identity = contents.identity->Ok_0->0;
        let views = entry_views(contents.system_entries@);
        assert forall|i: int| 0 <= i < contents.system_entries@.len() implies ({
            let key = (#[trigger] contents.system_entries@[i]).key@;
            key == database_identity_key() || key == head_seq_key() || key
                == durable_frontier_key()
        }) by {
            if found_in(views, i + 1, identity@) is Err {
                lemma_found_error(views, i + 1, views.len() as int, identity@);
            }
            assert(views[i] == contents.system_entries@[i]@);
        }
    }
}

/// One of the entries that a new index has: its identity, the head in front of the first commit,
/// and the frontier in front of it.
pub open spec fn is_first_entry(entry: EntryView, identity: Seq<u8>) -> bool {
    ||| entry.key == database_identity_key() && entry.value == identity
    ||| entry.key == head_seq_key() && entry.value == zeros(8)
    ||| entry.key == durable_frontier_key() && entry.value == empty_frontier().encoded()
}

/// The first entries are entries of a new index, each with a key of its own.
pub open spec fn are_first_entries(entries: Seq<EntryView>, count: int, identity: Seq<u8>) -> bool {
    &&& forall|i: int| 0 <= i < count ==> is_first_entry(#[trigger] entries[i], identity)
    &&& forall|i: int, j: int|
        0 <= i < j < count ==> (#[trigger] entries[i]).key != (#[trigger] entries[j]).key
}

/// A key is among those of the first entries.
pub open spec fn has_key(entries: Seq<EntryView>, count: int, key: Seq<u8>) -> bool {
    exists|i: int| 0 <= i < count && (#[trigger] entries[i]).key == key
}

proof fn lemma_found_in(entries: Seq<EntryView>, count: int, identity: Seq<u8>)
    requires
        0 <= count <= entries.len(),
    ensures
        found_in(entries, count, identity) is Ok <==> are_first_entries(entries, count, identity),
        found_in(entries, count, identity) matches Ok(found) ==> {
            &&& found.identity == has_key(entries, count, database_identity_key())
            &&& found.head == has_key(entries, count, head_seq_key())
            &&& found.frontier == has_key(entries, count, durable_frontier_key())
        },
    decreases count,
{
    lemma_system_keys_differ();
    if count > 0 {
        lemma_found_in(entries, count - 1, identity);
        let last = entries[count - 1];
        assert forall|key: Seq<u8>|
            has_key(entries, count, key) == (has_key(entries, count - 1, key) || last.key
                == key) by {
            if has_key(entries, count - 1, key) {
                let i = choose|i: int| 0 <= i < count - 1 && (#[trigger] entries[i]).key == key;
                assert(entries[i].key == key);
            }
        }
        assert(has_key(entries, count, last.key));
        if are_first_entries(entries, count, identity) {
            assert(is_first_entry(entries[count - 1], identity));
            if has_key(entries, count - 1, last.key) {
                let i = choose|i: int|
                    0 <= i < count - 1 && (#[trigger] entries[i]).key == last.key;
                assert(entries[i].key != entries[count - 1].key);
            }
        }
        if found_in(entries, count, identity) is Ok {
            assert forall|i: int, j: int| 0 <= i < j < count implies (#[trigger] entries[i]).key
                != (#[trigger] entries[j]).key by {
                if j == count - 1 && entries[i].key == last.key {
                    assert(has_key(entries, count - 1, last.key));
                }
            }
        }
    }
}

/// An index that was being made is taken up exactly where it could be read, holds nothing of a
/// user or a commit, and either says nothing of itself or says exactly what a new index of that
/// database does: its identity, head and frontier, once each, and nothing else.
pub proof fn law_interrupted_index_is_taken_up(contents: IndexContents, format: FormatMetadataV0)
    ensures
        interrupted_refusal(contents, format) is None <==> {
            let entries = entry_views(contents.system_entries@);
            let count = entries.len() as int;
            &&& contents.has_user_entries matches Ok(user) && !user
            &&& contents.has_transaction_entries matches Ok(transaction) && !transaction
            &&& contents.system_failure is None
            &&& contents.identity matches Ok(stored) && match stored {
                None => count == 0,
                Some(identity) => {
                    &&& identity_refusal(
                        identity@,
                        format.format_version,
                        format.database_uuid@,
                    ) is None
                    &&& are_first_entries(entries, count, identity@)
                    &&& has_key(entries, count, database_identity_key())
                    &&& has_key(entries, count, head_seq_key())
                    &&& has_key(entries, count, durable_frontier_key())
                },
            }
        },
{
    if contents.identity is Ok && contents.identity->Ok_0 is Some {
        let identity = contents.identity->Ok_0->0;
        let entries = entry_views(contents.system_entries@);
        lemma_found_in(entries, entries.len() as int, identity@);
    }
}

/// An index is the one of a database that is there exactly where its identity, its head and its
/// frontier can be read, and the identity is that of the database.
pub proof fn law_index_belongs_to_its_database(
    identity: IndexRead,
    head: IndexRead,
    frontier: IndexRead,
    format: FormatMetadataV0,
)
    ensures
        final_identity_refusal(identity, head, frontier, format) is None <==> {
            &&& identity matches Ok(Some(stored)) && identity_refusal(
                stored@,
                format.format_version,
                format.database_uuid@,
            ) is None
            &&& head matches Ok(Some(_))
            &&& frontier matches Ok(Some(_))
        },
{
}

/// A new database comes into being completely: every step is taken, each once but for the syncs
/// of the root, and none before those that it needs. A format file that was begun is on the disk
/// before anything else is made, is read back before it gets its name, and the name is on the
/// disk at the end.
pub proof fn law_new_database_is_complete(i: int, j: int)
    requires
        0 <= i < initialization_actions().len(),
        0 <= j < initialization_actions().len(),
    ensures
        ({
            let steps = initialization_actions();
            &&& forall|action: InitializationAction| #[trigger] steps.contains(action)
            &&& i != j && steps[i] == steps[j] ==> steps[i] == InitializationAction::SyncRoot
            &&& steps.first() == InitializationAction::WriteTemporaryFormat
            &&& steps[1] == InitializationAction::SyncRoot
            &&& steps.last() == InitializationAction::SyncRoot
            &&& steps[i] == InitializationAction::CreateIndexDirectory && steps[j]
                == InitializationAction::CreateIndex ==> i < j
            &&& steps[i] == InitializationAction::CreateVLogDirectory && steps[j]
                == InitializationAction::SyncVLogDirectory ==> i < j
            &&& steps[i] == InitializationAction::CreateIndex && steps[j]
                == InitializationAction::CommitIdentity ==> i < j
            &&& steps[i] == InitializationAction::CommitIdentity && steps[j]
                == InitializationAction::SyncIndex ==> i < j
            &&& steps[i] == InitializationAction::CheckTemporaryFormat && steps[j]
                == InitializationAction::PublishFormat ==> i + 1 == j
            &&& (steps[i] == InitializationAction::CreateIndexDirectory || steps[i]
                == InitializationAction::CreateVLogDirectory) && steps[j]
                == InitializationAction::CreateIndex ==> exists|k: int|
                i < k < j && #[trigger] steps[k] == InitializationAction::SyncRoot
        }),
{
    let steps = initialization_actions();
    assert forall|action: InitializationAction| #[trigger] steps.contains(action) by {
        match action {
            InitializationAction::WriteTemporaryFormat => assert(steps[0] == action),
            InitializationAction::SyncRoot => assert(steps[1] == action),
            InitializationAction::CreateIndexDirectory => assert(steps[2] == action),
            InitializationAction::CreateVLogDirectory => assert(steps[3] == action),
            InitializationAction::CreateIndex => assert(steps[5] == action),
            InitializationAction::CommitIdentity => assert(steps[6] == action),
            InitializationAction::SyncIndex => assert(steps[7] == action),
            InitializationAction::SyncVLogDirectory => assert(steps[8] == action),
            InitializationAction::CheckTemporaryFormat => assert(steps[10] == action),
            InitializationAction::PublishFormat => assert(steps[11] == action),
        }
    }
    assert(steps[4] == InitializationAction::SyncRoot);
}

/// A database that cannot be opened is refused before anything is written. What is not there is
/// not asked for again, a wrong request can be mended, what is held by someone else may be free
/// later, and a directory with the wrong things in it has to be repaired.
pub proof fn law_refused_opening_is_advised(kind: StorageErrorKind)
    ensures
        ({
            let error = open_preflight_view(kind);
            let passing = kind == StorageErrorKind::Busy || kind
                == StorageErrorKind::ResourceExhausted;
            &&& error.kind == kind
            &&& error.operation == Operation::Open
            &&& error.protocol_stage == ProtocolStage::Preflight
            &&& error.write_outcome is None
            &&& error.instance_state is None
            &&& error.retry_advice == RetryAdvice::DoNotRetry <==> kind
                == StorageErrorKind::NotFound
            &&& error.retry_advice == RetryAdvice::FixRequestAndRetrySameInstance <==> kind
                == StorageErrorKind::InvalidArgument
            &&& error.retry_advice == RetryAdvice::RetrySameInstance <==> passing
            &&& error.retry_advice == RetryAdvice::RestoreOrRepair <==> kind
                != StorageErrorKind::NotFound && kind != StorageErrorKind::InvalidArgument
                && !passing
        }),
{
}

} // verus!
