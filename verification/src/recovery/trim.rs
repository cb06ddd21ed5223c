//! Cutting the log off behind its accepted end, and the files that its accepted part is in.

use vstd::prelude::*;

use crate::commit::metadata::DurableVLogEnd;
use crate::recovery::topology::{
    files_fit, goes_beyond, in_file_order, in_strict_file_order, reaches, tail_matches, tail_of,
    ManagedInventory, VLogInventoryEntry,
};
use crate::vlog::geometry::{position_before, VLogGeometry, VLogPosition};

verus! {

/// One step of cutting the log off.
#[derive(Clone, Copy, Debug, PartialEq, Eq, Structural)]
pub enum TrimAction {
    RemoveFile { file_id: u32 },
    CutFile { file_id: u32, len: u64 },
}

/// What is to be done to the last file, if anything: it goes where it lies wholly behind the
/// end, and is shortened where it goes on behind it.
pub open spec fn trim_step(files: Seq<VLogInventoryEntry>, end: DurableVLogEnd) -> Option<
    TrimAction,
> {
    if files.len() == 0 {
        None
    } else {
        let last = files.last();
        match end {
            DurableVLogEnd::Empty => Some(TrimAction::RemoveFile { file_id: last.file_id }),
            DurableVLogEnd::Position(position) => if last.file_id > position.file_id {
                Some(TrimAction::RemoveFile { file_id: last.file_id })
            } else if last.file_id == position.file_id && last.len > position.offset {
                Some(TrimAction::CutFile { file_id: last.file_id, len: position.offset })
            } else {
                None
            },
        }
    }
}

/// The files after a step that was done to the last one.
pub open spec fn after_trim_step(files: Seq<VLogInventoryEntry>, action: TrimAction) -> Seq<
    VLogInventoryEntry,
> {
    match action {
        TrimAction::RemoveFile { file_id } => files.drop_last(),
        TrimAction::CutFile { file_id, len } => files.drop_last().push(
            VLogInventoryEntry { file_id, len },
        ),
    }
}

/// The files after every step.
pub open spec fn trimmed(files: Seq<VLogInventoryEntry>, end: DurableVLogEnd) -> Seq<
    VLogInventoryEntry,
>
    decreases files.len(),
{
    match trim_step(files, end) {
        Some(TrimAction::RemoveFile { file_id }) => trimmed(files.drop_last(), end),
        Some(action) => after_trim_step(files, action),
        None => files,
    }
}

/// A file lies before the one that an end is in.
pub open spec fn lies_before(entry: VLogInventoryEntry, end: DurableVLogEnd) -> bool {
    match end {
        DurableVLogEnd::Empty => false,
        DurableVLogEnd::Position(position) => entry.file_id < position.file_id,
    }
}

/// The next step of cutting the log off behind an end; `None` where nothing lies behind it.
pub fn next_trim(inventory: &ManagedInventory, end: DurableVLogEnd) -> (action: Option<TrimAction>)
    ensures
        action == trim_step(inventory.vlog_files@, end),
{
    let count: usize = inventory.vlog_files.len();
    if count == 0 {
        return None;
    }
    let last = inventory.vlog_files[count - 1];
    match end {
        DurableVLogEnd::Empty => Some(TrimAction::RemoveFile { file_id: last.file_id }),
        DurableVLogEnd::Position(position) => {
            if last.file_id > position.file_id {
                Some(TrimAction::RemoveFile { file_id: last.file_id })
            } else if last.file_id == position.file_id && last.len > position.offset {
                Some(TrimAction::CutFile { file_id: last.file_id, len: position.offset })
            } else {
                None
            }
        },
    }
}

/// Takes note that a step was done.
pub fn trim_done(inventory: &mut ManagedInventory, action: TrimAction)
    requires
        old(inventory).vlog_files@.len() > 0,
    ensures
        final(inventory).vlog_files@ == after_trim_step(old(inventory).vlog_files@, action),
{
    inventory.vlog_files.pop();
    match action {
        TrimAction::RemoveFile { .. } => {},
        TrimAction::CutFile { file_id, len } => {
            inventory.vlog_files.push(VLogInventoryEntry { file_id, len });
        },
    }
}

/// The files, from the first to the last, that hold the log between two ends; `None` where it
/// holds nothing.
pub open spec fn files_between(from: DurableVLogEnd, to: DurableVLogEnd) -> Option<(u32, u32)> {
    match to {
        DurableVLogEnd::Empty => None,
        DurableVLogEnd::Position(last) => {
            let first = match from {
                DurableVLogEnd::Empty => 0,
                DurableVLogEnd::Position(position) => position.file_id,
            };
            if from == to || first > last.file_id {
                None
            } else {
                Some((first, last.file_id))
            }
        },
    }
}

/// The files that have to be brought to the disk before an end may be called durable.
pub fn accepted_files(from: DurableVLogEnd, to: DurableVLogEnd) -> (files: Option<(u32, u32)>)
    ensures
        files == files_between(from, to),
{
    let last = match to {
        DurableVLogEnd::Empty => return None,
        DurableVLogEnd::Position(last) => last,
    };
    let first: u32 = match from {
        DurableVLogEnd::Empty => 0,
        DurableVLogEnd::Position(position) => position.file_id,
    };
    if from == to || first > last.file_id {
        return None;
    }
    Some((first, last.file_id))
}

/// Each step leaves the files in order, and either one file less or nothing to do.
pub proof fn law_trim_ends(files: Seq<VLogInventoryEntry>, end: DurableVLogEnd, action: TrimAction)
    requires
        in_file_order(files),
        trim_step(files, end) == Some(action),
    ensures
        in_file_order(after_trim_step(files, action)),
        in_strict_file_order(files) ==> in_strict_file_order(after_trim_step(files, action)),
        action is RemoveFile ==> after_trim_step(files, action).len() < files.len(),
        action is CutFile ==> trim_step(after_trim_step(files, action), end) is None,
{
    let after = after_trim_step(files, action);
    assert forall|i: int, j: int| 0 <= i <= j < after.len() implies (#[trigger] after[i]).file_id
        <= (#[trigger] after[j]).file_id by {
        assert(files[i].file_id <= files[j].file_id);
    }
    if in_strict_file_order(files) {
        assert forall|i: int, j: int| 0 <= i < j < after.len() implies (
        #[trigger] after[i]).file_id < (#[trigger] after[j]).file_id by {
            assert(files[i].file_id < files[j].file_id);
        }
    }
}

/// A log that reaches its accepted end, and is cut off behind it, ends there; and no file
/// before the end was touched.
pub proof fn law_trimmed_log_ends_at_accepted_end(
    files: Seq<VLogInventoryEntry>,
    end: DurableVLogEnd,
    geometry: VLogGeometry,
)
    requires
        files_fit(files, geometry),
        reaches(files, end),
    ensures
        files_fit(trimmed(files, end), geometry),
        !goes_beyond(trimmed(files, end), end),
        tail_matches(tail_of(trimmed(files, end)), end),
        forall|i: int|
            0 <= i < files.len() && lies_before(#[trigger] files[i], end) ==> i < trimmed(
                files,
                end,
            ).len() && trimmed(files, end)[i] == files[i],
    decreases files.len(),
{
    match trim_step(files, end) {
        Some(TrimAction::RemoveFile { file_id }) => {
            let rest = files.drop_last();
            assert(files_fit(rest, geometry));
            if let DurableVLogEnd::Position(position) = end {
                let i = choose|i: int|
                    0 <= i < files.len() && (#[trigger] files[i]).file_id == position.file_id
                        && files[i].len >= position.offset;
                assert(rest[i] == files[i]);
            }
            law_trimmed_log_ends_at_accepted_end(rest, end, geometry);
            assert forall|i: int|
                0 <= i < files.len() && lies_before(#[trigger] files[i], end) implies i < trimmed(
                files,
                end,
            ).len() && trimmed(files, end)[i] == files[i] by {
                if i < rest.len() {
                    assert(rest[i] == files[i]);
                }
            }
        },
        Some(TrimAction::CutFile { file_id, len }) => {
            let after = trimmed(files, end);
            assert forall|i: int| 0 <= i < after.len() - 1 implies #[trigger] after[i]
                == files[i] by {}
            assert(after.last() == (VLogInventoryEntry { file_id, len }));
            assert(files_fit(after, geometry));
        },
        None => {
            if let DurableVLogEnd::Position(position) = end {
                let i = choose|i: int|
                    0 <= i < files.len() && (#[trigger] files[i]).file_id == position.file_id
                        && files[i].len >= position.offset;
                let last = files.len() - 1;
                if i < last {
                    assert(files[i].file_id < files[last].file_id);
                }
            }
        },
    }
}

/// The files that have to be brought to the disk hold every byte between two ends of the log, and
/// begin and end with those that the two ends are in. Between an end and itself there is none.
pub proof fn law_accepted_files_hold_every_byte(
    from: DurableVLogEnd,
    to: DurableVLogEnd,
    byte: VLogPosition,
)
    ensures
        ({
            let start = match from {
                DurableVLogEnd::Empty => VLogPosition { file_id: 0, offset: 0 },
                DurableVLogEnd::Position(position) => position,
            };
            let files = files_between(from, to);
            &&& files_between(from, from) is None
            &&& to matches DurableVLogEnd::Position(end) ==> {
                &&& !position_before(byte, start) && position_before(byte, end) ==> (files matches
                    Some((first, last)) && first <= byte.file_id <= last)
                &&& files matches Some((first, last)) ==> first == start.file_id && last
                    == end.file_id
            }
            &&& to is Empty ==> files is None
        }),
{
}

/// What is cut off lies behind the end: a file is removed only where no byte of it lies before
/// the end, and is never left shorter than the end.
pub proof fn law_trim_spares_accepted_bytes(
    files: Seq<VLogInventoryEntry>,
    end: VLogPosition,
    action: TrimAction,
)
    requires
        trim_step(files, DurableVLogEnd::Position(end)) == Some(action),
    ensures
        match action {
            TrimAction::RemoveFile { file_id } => file_id == files.last().file_id && file_id
                > end.file_id,
            TrimAction::CutFile { file_id, len } => file_id == files.last().file_id && file_id
                == end.file_id && len == end.offset && len < files.last().len,
        },
{
}

} // verus!
