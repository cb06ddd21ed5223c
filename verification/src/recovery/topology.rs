//! The files of the value log as they are found on disk.

use vstd::prelude::*;

use crate::commit::metadata::DurableVLogEnd;
use crate::error::{
    detached_error, ErrorView, Operation, ProtocolStage, Result, RetryAdvice, StorageError,
    StorageErrorKind,
};
use crate::format::FormatMetadataV0;
use crate::memory::{asked, Memory};
use crate::root::{inventory_memory_error, layout_error, open_preflight_view};
use crate::vlog::file_set::{file_name, parse_vlog_file_name};
use crate::vlog::geometry::{
    position_before, VLogGeometry, VLogPosition, MAX_VLOG_FILE_ID, MAX_VLOG_FILE_SIZE,
};
use crate::vlog::header::{
    file_header_of_other_version, lemma_file_header_layout, lemma_page_header_layout,
    new_file_header, same_uuid, PageHeader, VLogFileHeader, FILE_HEADER_ENCODED_LEN,
    PAGE_HEADER_ENCODED_LEN,
};

verus! {

/// A file of the log, and its length.
#[derive(Clone, Copy, Debug, PartialEq, Eq, Structural)]
pub struct VLogInventoryEntry {
    pub file_id: u32,
    pub len: u64,
}

/// The files of the log, in the order of their numbers.
#[derive(Debug)]
pub struct ManagedInventory {
    pub vlog_files: Vec<VLogInventoryEntry>,
}

/// The last byte of the log on disk.
#[derive(Clone, Copy, Debug, PartialEq, Eq, Structural)]
pub enum PhysicalTail {
    Empty,
    Position(VLogPosition),
}

/// What was found of the log.
#[derive(Clone, Copy, Debug, PartialEq, Eq, Structural)]
pub struct RecoveryTopology {
    pub physical_tail: PhysicalTail,
    pub file_count: usize,
}

/// An error about the files that were found.
pub open spec fn inventory_view(kind: StorageErrorKind) -> ErrorView {
    detached_error(
        kind,
        Operation::Open,
        ProtocolStage::Recovery,
        None,
        if kind == StorageErrorKind::IncompatibleFormat {
            RetryAdvice::DoNotRetry
        } else {
            RetryAdvice::RestoreOrRepair
        },
    )
}

fn open_inventory_error(kind: StorageErrorKind) -> (error: StorageError)
    ensures
        error@ == inventory_view(kind),
{
    let retry_advice = if kind == StorageErrorKind::IncompatibleFormat {
        RetryAdvice::DoNotRetry
    } else {
        RetryAdvice::RestoreOrRepair
    };
    StorageError::codec_error(kind, Operation::Open, ProtocolStage::Recovery, None, retry_advice)
}

/// Whether the headers of a file have to be looked at: it is long enough to have them.
pub open spec fn has_headers(len: u64) -> bool {
    len >= PAGE_HEADER_ENCODED_LEN + FILE_HEADER_ENCODED_LEN
}

/// Tells whether the headers of a file of this length have to be looked at.
pub fn headers_to_check(len: u64) -> (check: bool)
    ensures
        check == has_headers(len),
{
    len >= (PAGE_HEADER_ENCODED_LEN + FILE_HEADER_ENCODED_LEN) as u64
}

/// Files in the order of their numbers.
pub open spec fn in_file_order(files: Seq<VLogInventoryEntry>) -> bool {
    forall|i: int, j: int|
        0 <= i < j < files.len() ==> (#[trigger] files[i]).file_id <= (#[trigger] files[j]).file_id
}

/// Files in the order of their numbers, each once.
pub open spec fn in_strict_file_order(files: Seq<VLogInventoryEntry>) -> bool {
    forall|i: int, j: int|
        0 <= i < j < files.len() ==> (#[trigger] files[i]).file_id < (#[trigger] files[j]).file_id
}

/// A file is among those that are listed.
pub open spec fn lists_file(files: Seq<VLogInventoryEntry>, file_id: u32) -> bool {
    exists|i: int| 0 <= i < files.len() && (#[trigger] files[i]).file_id == file_id
}

impl ManagedInventory {
    pub fn new() -> (inventory: Self)
        ensures
            inventory.vlog_files@.len() == 0,
    {
        ManagedInventory { vlog_files: Vec::new() }
    }

    /// Looks at an entry of the directory of the log: only regular files with the name of a
    /// file, and no longer than one can be, may lie there.
    pub fn file_of_entry(name: &[u8], is_regular: bool, len: u64) -> (result: Result<u32>)
        ensures
            match result {
                Ok(file_id) => {
                    &&& file_id <= MAX_VLOG_FILE_ID && name@ == file_name(file_id)
                    &&& is_regular && len <= MAX_VLOG_FILE_SIZE
                },
                Err(error) => {
                    &&& error@ == open_preflight_view(StorageErrorKind::InvalidLayout)
                    &&& {
                        ||| forall|file_id: u32|
                            file_id <= MAX_VLOG_FILE_ID ==> name@ != #[trigger] file_name(file_id)
                        ||| !is_regular
                        ||| len > MAX_VLOG_FILE_SIZE
                    }
                },
            },
    {
        let file_id: u32 = match parse_vlog_file_name(name) {
            Some(file_id) => file_id,
            None => return Err(layout_error()),
        };
        if !is_regular || len > MAX_VLOG_FILE_SIZE {
            return Err(layout_error());
        }
        Ok(file_id)
    }

    /// Adds a file at its place.
    pub fn add(&mut self, memory: &mut Memory, entry: VLogInventoryEntry) -> (result: Result<()>)
        requires
            in_file_order(old(self).vlog_files@),
            !old(memory).refused(),
        ensures
            in_file_order(final(self).vlog_files@),
            in_strict_file_order(old(self).vlog_files@) && !lists_file(
                old(self).vlog_files@,
                entry.file_id,
            ) ==> in_strict_file_order(final(self).vlog_files@),
            match result {
                Ok(_) => !final(memory).refused() && exists|i: int|
                    0 <= i <= old(self).vlog_files@.len() && final(self).vlog_files@
                        == #[trigger] old(self).vlog_files@.insert(i, entry),
                Err(error) => {
                    &&& final(memory).refused()
                    &&& error@ == open_preflight_view(StorageErrorKind::ResourceExhausted)
                    &&& final(self).vlog_files@ == old(self).vlog_files@
                },
            },
            asked(*old(memory), *final(memory), 1, old(self).vlog_files@.len() + 1),
    {
        if !memory.reserve(&mut self.vlog_files, 1) {
            return Err(inventory_memory_error());
        }
        let ghost before = self.vlog_files@;
        let mut i: usize = self.vlog_files.len();
        while i > 0 && self.vlog_files[i - 1].file_id > entry.file_id
            invariant
                self.vlog_files@ == before,
                i <= before.len(),
                forall|k: int| i <= k < before.len() ==> (#[trigger] before[k]).file_id
                    > entry.file_id,
            decreases i,
        {
            i = i - 1;
        }
        self.vlog_files.insert(i, entry);
        proof {
            let after = self.vlog_files@;
            assert(after == before.insert(i as int, entry));
            assert forall|a: int, b: int| 0 <= a < b < after.len() implies (
            #[trigger] after[a]).file_id <= (#[trigger] after[b]).file_id by {
                let x = if a < i { a } else { a - 1 };
                let y = if b < i { b } else { b - 1 };
                if a != i {
                    assert(after[a] == before[x]);
                }
                if b != i {
                    assert(after[b] == before[y]);
                }
                if b == i {
                    assert(before[x].file_id <= before[i - 1].file_id || x == i - 1);
                }
            }
            if in_strict_file_order(before) && !lists_file(before, entry.file_id) {
                assert forall|a: int, b: int| 0 <= a < b < after.len() implies (
                #[trigger] after[a]).file_id < (#[trigger] after[b]).file_id by {
                    assert(after[a].file_id <= after[b].file_id);
                    let x = if a < i { a } else { a - 1 };
                    let y = if b < i { b } else { b - 1 };
                    if a != i {
                        assert(after[a] == before[x]);
                    }
                    if b != i {
                        assert(after[b] == before[y]);
                    }
                }
            }
        }
        Ok(())
    }
}

/// Checks the headers of a file against the format of the database.
pub fn validate_file_identity(encoded: &[u8], file_id: u32, format: &FormatMetadataV0) -> (result: Result<
    (),
>)
    requires
        encoded@.len() == PAGE_HEADER_ENCODED_LEN + FILE_HEADER_ENCODED_LEN,
        format.valid(),
        file_id <= MAX_VLOG_FILE_ID,
    ensures
        ({
            let page = encoded@.take(PAGE_HEADER_ENCODED_LEN as int);
            let file = encoded@.skip(PAGE_HEADER_ENCODED_LEN as int);
            let some_page = exists|header: PageHeader|
                header.valid() && page == #[trigger] header.encoded();
            let own = page == (PageHeader { file_id, page_no: 0 }).encoded() && file
                == new_file_header(format.database_uuid@, file_id);
            match result {
                Ok(_) => own,
                Err(error) => !own && error@ == inventory_view(
                    if some_page && file_header_of_other_version(file) {
                        StorageErrorKind::IncompatibleFormat
                    } else {
                        StorageErrorKind::Corruption
                    },
                ),
            }
        }),
{
    let page_bytes = vstd::slice::slice_subrange(encoded, 0, PAGE_HEADER_ENCODED_LEN);
    let file_bytes = vstd::slice::slice_subrange(
        encoded,
        PAGE_HEADER_ENCODED_LEN,
        PAGE_HEADER_ENCODED_LEN + FILE_HEADER_ENCODED_LEN,
    );
    let wanted_page = PageHeader { file_id, page_no: 0 };
    let wanted_file = VLogFileHeader::new(format.database_uuid, file_id);
    proof {
        assert(page_bytes@ =~= encoded@.take(PAGE_HEADER_ENCODED_LEN as int));
        assert(file_bytes@ =~= encoded@.skip(PAGE_HEADER_ENCODED_LEN as int));
        lemma_page_header_layout(wanted_page);
        lemma_file_header_layout(wanted_file);
        assert(wanted_page.valid());
        assert(wanted_file.valid());
        assert(wanted_file.encoded() == new_file_header(format.database_uuid@, file_id));
    }
    let page_header = match PageHeader::decode(page_bytes) {
        Ok(header) => header,
        Err(error) => return Err(open_inventory_error(error.kind)),
    };
    let file_header = match VLogFileHeader::decode(file_bytes) {
        Ok(header) => header,
        Err(error) => return Err(open_inventory_error(error.kind)),
    };
    proof {
        lemma_page_header_layout(page_header);
        lemma_file_header_layout(file_header);
        assert(!file_header_of_other_version(file_bytes@));
    }
    if page_header.file_id != file_id || page_header.page_no != 0 || file_header.file_id != file_id
        || !same_uuid(&file_header.database_uuid, &format.database_uuid) {
        return Err(open_inventory_error(StorageErrorKind::Corruption));
    }
    Ok(())
}

/// Files with numbers that increase, none beyond what the geometry allows.
pub open spec fn files_fit(files: Seq<VLogInventoryEntry>, geometry: VLogGeometry) -> bool {
    &&& forall|i: int|
        0 <= i < files.len() ==> (#[trigger] files[i]).file_id <= geometry.max_file_id
            && files[i].len <= geometry.max_file_size
    &&& forall|i: int, j: int|
        0 <= i < j < files.len() ==> (#[trigger] files[i]).file_id < (#[trigger] files[j]).file_id
}

/// Everything up to a stable end is there: the files before its own are full, and its own
/// reaches it.
pub open spec fn covers_stable_end(
    files: Seq<VLogInventoryEntry>,
    stable_end: DurableVLogEnd,
    geometry: VLogGeometry,
) -> bool {
    match stable_end {
        DurableVLogEnd::Empty => true,
        DurableVLogEnd::Position(end) => {
            &&& end.file_id <= geometry.max_file_id && end.offset <= geometry.max_file_size
            &&& end.file_id < files.len()
            &&& forall|i: int| 0 <= i <= end.file_id ==> (#[trigger] files[i]).file_id == i
            &&& forall|i: int|
                0 <= i < end.file_id ==> (#[trigger] files[i]).len == geometry.max_file_size
            &&& files[end.file_id as int].len >= end.offset
        },
    }
}

/// The last byte of some files.
pub open spec fn tail_of(files: Seq<VLogInventoryEntry>) -> PhysicalTail {
    if files.len() == 0 {
        PhysicalTail::Empty
    } else {
        PhysicalTail::Position(
            VLogPosition { file_id: files.last().file_id, offset: files.last().len },
        )
    }
}

fn validate_inventory_order(inventory: &ManagedInventory, geometry: VLogGeometry) -> (result: Result<()>)
    ensures
        match result {
            Ok(_) => files_fit(inventory.vlog_files@, geometry),
            Err(error) => !files_fit(inventory.vlog_files@, geometry) && error@ == inventory_view(
                StorageErrorKind::Corruption,
            ),
        },
{
    let ghost files = inventory.vlog_files@;
    let mut i: usize = 0;
    while i < inventory.vlog_files.len()
        invariant
            i <= files.len(),
            files == inventory.vlog_files@,
            forall|k: int|
                0 <= k < i ==> (#[trigger] files[k]).file_id <= geometry.max_file_id
                    && files[k].len <= geometry.max_file_size,
            forall|a: int, b: int|
                0 <= a < b < i ==> (#[trigger] files[a]).file_id < (#[trigger] files[b]).file_id,
        decreases files.len() - i,
    {
        let entry = inventory.vlog_files[i];
        if entry.file_id > geometry.max_file_id || entry.len > geometry.max_file_size {
            return Err(open_inventory_error(StorageErrorKind::Corruption));
        }
        if i > 0 && inventory.vlog_files[i - 1].file_id >= entry.file_id {
            return Err(open_inventory_error(StorageErrorKind::Corruption));
        }
        i = i + 1;
    }
    Ok(())
}

fn validate_stable_files(
    inventory: &ManagedInventory,
    stable_end: DurableVLogEnd,
    geometry: VLogGeometry,
) -> (result: Result<()>)
    requires
        files_fit(inventory.vlog_files@, geometry),
    ensures
        match result {
            Ok(_) => covers_stable_end(inventory.vlog_files@, stable_end, geometry),
            Err(error) => !covers_stable_end(inventory.vlog_files@, stable_end, geometry) && error@
                == inventory_view(StorageErrorKind::Corruption),
        },
{
    let ghost files = inventory.vlog_files@;
    let end = match stable_end {
        DurableVLogEnd::Empty => return Ok(()),
        DurableVLogEnd::Position(end) => end,
    };
    if end.file_id > geometry.max_file_id || end.offset > geometry.max_file_size {
        return Err(open_inventory_error(StorageErrorKind::Corruption));
    }
    let mut i: usize = 0;
    while i < inventory.vlog_files.len()
        invariant
            i <= files.len(),
            files == inventory.vlog_files@,
            i <= end.file_id,
            end.file_id <= geometry.max_file_id,
            end.offset <= geometry.max_file_size,
            stable_end == DurableVLogEnd::Position(end),
            forall|k: int| 0 <= k < i ==> (#[trigger] files[k]).file_id == k,
            forall|k: int| 0 <= k < i ==> (#[trigger] files[k]).len == geometry.max_file_size,
        decreases files.len() - i,
    {
        let entry = inventory.vlog_files[i];
        if entry.file_id as usize != i {
            return Err(open_inventory_error(StorageErrorKind::Corruption));
        }
        if entry.file_id < end.file_id {
            if entry.len != geometry.max_file_size {
                return Err(open_inventory_error(StorageErrorKind::Corruption));
            }
        } else {
            if entry.len < end.offset {
                return Err(open_inventory_error(StorageErrorKind::Corruption));
            }
            return Ok(());
        }
        i = i + 1;
    }
    Err(open_inventory_error(StorageErrorKind::Corruption))
}

/// A file of the log reaches an end.
pub open spec fn reaches(files: Seq<VLogInventoryEntry>, end: DurableVLogEnd) -> bool {
    match end {
        DurableVLogEnd::Empty => true,
        DurableVLogEnd::Position(position) => exists|i: int|
            0 <= i < files.len() && (#[trigger] files[i]).file_id == position.file_id
                && files[i].len >= position.offset,
    }
}

/// Something lies in the log behind an end.
pub open spec fn goes_beyond(files: Seq<VLogInventoryEntry>, end: DurableVLogEnd) -> bool {
    match end {
        DurableVLogEnd::Empty => files.len() > 0,
        DurableVLogEnd::Position(position) => exists|i: int|
            0 <= i < files.len() && ((#[trigger] files[i]).file_id > position.file_id || (
            files[i].file_id == position.file_id && files[i].len > position.offset)),
    }
}

impl RecoveryTopology {
    /// Looks at the files of the log.
    pub fn analyze(
        inventory: &ManagedInventory,
        stable_end: DurableVLogEnd,
        geometry: VLogGeometry,
    ) -> (result: Result<Self>)
        ensures
            ({
                let files = inventory.vlog_files@;
                let sound = files_fit(files, geometry) && covers_stable_end(
                    files,
                    stable_end,
                    geometry,
                );
                match result {
                    Ok(topology) => sound && topology == (RecoveryTopology {
                        physical_tail: tail_of(files),
                        file_count: files.len() as usize,
                    }),
                    Err(error) => !sound && error@ == inventory_view(StorageErrorKind::Corruption),
                }
            }),
    {
        validate_inventory_order(inventory, geometry)?;
        validate_stable_files(inventory, stable_end, geometry)?;
        let count: usize = inventory.vlog_files.len();
        let physical_tail = if count == 0 {
            PhysicalTail::Empty
        } else {
            let last = inventory.vlog_files[count - 1];
            PhysicalTail::Position(VLogPosition { file_id: last.file_id, offset: last.len })
        };
        Ok(RecoveryTopology { physical_tail, file_count: count })
    }

    pub fn contains_end(&self, inventory: &ManagedInventory, end: DurableVLogEnd) -> (contains: bool)
        ensures
            contains == reaches(inventory.vlog_files@, end),
    {
        let position = match end {
            DurableVLogEnd::Empty => return true,
            DurableVLogEnd::Position(position) => position,
        };
        let ghost files = inventory.vlog_files@;
        let mut i: usize = 0;
        while i < inventory.vlog_files.len()
            invariant
                i <= files.len(),
                files == inventory.vlog_files@,
                end == DurableVLogEnd::Position(position),
                forall|k: int|
                    0 <= k < i ==> !((#[trigger] files[k]).file_id == position.file_id
                        && files[k].len >= position.offset),
            decreases files.len() - i,
        {
            let entry = inventory.vlog_files[i];
            if entry.file_id == position.file_id && entry.len >= position.offset {
                proof {
                    assert(files[i as int] == entry);
                }
                return true;
            }
            i = i + 1;
        }
        false
    }

    pub fn has_suffix_after(&self, inventory: &ManagedInventory, accepted_end: DurableVLogEnd) -> (has:
        bool)
        ensures
            has == goes_beyond(inventory.vlog_files@, accepted_end),
    {
        let position = match accepted_end {
            DurableVLogEnd::Empty => return inventory.vlog_files.len() > 0,
            DurableVLogEnd::Position(position) => position,
        };
        let ghost files = inventory.vlog_files@;
        let mut i: usize = 0;
        while i < inventory.vlog_files.len()
            invariant
                i <= files.len(),
                files == inventory.vlog_files@,
                accepted_end == DurableVLogEnd::Position(position),
                forall|k: int|
                    0 <= k < i ==> !((#[trigger] files[k]).file_id > position.file_id || (
                    files[k].file_id == position.file_id && files[k].len > position.offset)),
            decreases files.len() - i,
        {
            let entry = inventory.vlog_files[i];
            if entry.file_id > position.file_id || (entry.file_id == position.file_id && entry.len
                > position.offset) {
                proof {
                    assert(files[i as int] == entry);
                }
                return true;
            }
            i = i + 1;
        }
        false
    }

    /// Whether the log ends on disk exactly where it should.
    pub fn physical_tail_matches(&self, end: DurableVLogEnd) -> (matches: bool)
        ensures
            matches == tail_matches(self.physical_tail, end),
    {
        match (self.physical_tail, end) {
            (PhysicalTail::Empty, DurableVLogEnd::Empty) => true,
            (PhysicalTail::Position(found), DurableVLogEnd::Position(expected)) => found
                == expected,
            _ => false,
        }
    }
}

pub open spec fn tail_matches(tail: PhysicalTail, end: DurableVLogEnd) -> bool {
    match tail {
        PhysicalTail::Empty => end is Empty,
        PhysicalTail::Position(found) => end == DurableVLogEnd::Position(found),
    }
}

/// A log that covers its stable end and does not go beyond it ends there.
pub proof fn law_log_without_suffix_ends_at_stable_end(
    files: Seq<VLogInventoryEntry>,
    stable_end: DurableVLogEnd,
    geometry: VLogGeometry,
)
    requires
        files_fit(files, geometry),
        covers_stable_end(files, stable_end, geometry),
        !goes_beyond(files, stable_end),
    ensures
        tail_matches(tail_of(files), stable_end),
{
    if let DurableVLogEnd::Position(end) = stable_end {
        let last = files.len() - 1;
        assert(files[end.file_id as int].file_id == end.file_id);
        if last > end.file_id {
            assert(files[end.file_id as int].file_id < files[last].file_id);
        }
        assert(files[last] == files.last());
    }
}

/// A log as it is written is taken: files numbered from zero without a gap, all but the last one
/// full, and the stable end inside.
pub proof fn law_written_log_is_taken(
    files: Seq<VLogInventoryEntry>,
    stable_end: DurableVLogEnd,
    geometry: VLogGeometry,
)
    requires
        forall|i: int| 0 <= i < files.len() ==> (#[trigger] files[i]).file_id == i,
        forall|i: int|
            0 <= i < files.len() - 1 ==> (#[trigger] files[i]).len == geometry.max_file_size,
        files.len() > 0 ==> files.last().len <= geometry.max_file_size,
        files.len() <= geometry.max_file_id + 1,
        stable_end matches DurableVLogEnd::Position(end) ==> end.file_id < files.len()
            && end.offset <= files[end.file_id as int].len,
    ensures
        files_fit(files, geometry),
        covers_stable_end(files, stable_end, geometry),
{
    assert forall|i: int| 0 <= i < files.len() implies (#[trigger] files[i]).file_id
        <= geometry.max_file_id && files[i].len <= geometry.max_file_size by {
        assert(files.last() == files[files.len() - 1]);
    }
}

/// A log that is taken has every byte before its stable end: a file with that number, which is
/// longer. No two of its files have the same number.
pub proof fn law_taken_log_holds_stable_bytes(
    files: Seq<VLogInventoryEntry>,
    end: VLogPosition,
    geometry: VLogGeometry,
    byte: VLogPosition,
)
    requires
        files_fit(files, geometry),
        covers_stable_end(files, DurableVLogEnd::Position(end), geometry),
        position_before(byte, end),
        byte.offset < geometry.max_file_size,
    ensures
        exists|i: int|
            0 <= i < files.len() && (#[trigger] files[i]).file_id == byte.file_id && files[i].len
                > byte.offset,
        forall|i: int, j: int|
            0 <= i < j < files.len() ==> (#[trigger] files[i]).file_id != (
            #[trigger] files[j]).file_id,
        forall|i: int|
            0 <= i < files.len() ==> (#[trigger] files[i]).len <= geometry.max_file_size
                && files[i].file_id <= geometry.max_file_id,
{
    let i = byte.file_id as int;
    assert(files[i].file_id == i);
}

/// The tail of a log is the end of its last file. The log goes beyond an end exactly where its
/// tail lies behind it; and it ends exactly where it reaches an end and does not go beyond it.
pub proof fn law_tail_is_the_end_of_the_log(
    files: Seq<VLogInventoryEntry>,
    end: DurableVLogEnd,
    geometry: VLogGeometry,
)
    requires
        files_fit(files, geometry),
    ensures
        tail_of(files) is Empty <==> files.len() == 0,
        tail_of(files) matches PhysicalTail::Position(tail) ==> {
            &&& exists|i: int|
                0 <= i < files.len() && (#[trigger] files[i]).file_id == tail.file_id
                    && files[i].len == tail.offset
            &&& forall|i: int|
                0 <= i < files.len() ==> {
                    let of_file = VLogPosition {
                        file_id: (#[trigger] files[i]).file_id,
                        offset: files[i].len,
                    };
                    of_file == tail || position_before(of_file, tail) || of_file.file_id
                        < tail.file_id
                }
            &&& goes_beyond(files, end) <==> match end {
                DurableVLogEnd::Empty => true,
                DurableVLogEnd::Position(position) => position_before(position, tail),
            }
        },
        tail_of(files) is Empty ==> !goes_beyond(files, end),
        tail_matches(tail_of(files), end) <==> reaches(files, end) && !goes_beyond(files, end),
{
    if files.len() > 0 {
        let last = files.len() - 1;
        assert(files[last] == files.last());
        assert forall|i: int| 0 <= i < last implies (#[trigger] files[i]).file_id
            < files[last].file_id by {}
    }
}

/// The headers of a file are looked at where it can hold both, sixty-four bytes. What is wrong with
/// the files is told as it is, and only what another version wrote is not to be restored.
pub proof fn law_headers_are_looked_at_where_there_are_any(len: u64, kind: StorageErrorKind)
    ensures
        has_headers(len) <==> len >= 64,
        inventory_view(kind).kind == kind,
        inventory_view(kind).operation == Operation::Open,
        inventory_view(kind).protocol_stage == ProtocolStage::Recovery,
        inventory_view(kind).retry_advice == RetryAdvice::DoNotRetry <==> kind
            == StorageErrorKind::IncompatibleFormat,
        kind != StorageErrorKind::IncompatibleFormat ==> inventory_view(kind).retry_advice
            == RetryAdvice::RestoreOrRepair,
{
}

} // verus!
