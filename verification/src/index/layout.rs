//! The files of the engine below the index. The engine itself makes what it does not find and
//! removes what it does not know, so that everything is looked at before it is opened.

use vstd::prelude::*;

use crate::bytes::{le_bytes, matches_at, read_u64, same_bytes, u64_at};
use crate::error::{Operation, ProtocolStage, Result, StorageErrorKind};
use crate::index::engine::{
    engine_open_view, engine_view, open_existing_error, sanitized_storage_error,
};
use crate::io_failure::{IoCause, IoFailure};
use crate::root::ManagedEntryKind;
use crate::vlog::file_set::{decimal_value, is_digit};

verus! {

/// The kind of an entry of a directory.
#[derive(Clone, Copy, Debug, PartialEq, Eq, Structural)]
pub enum EntryType {
    File,
    Directory,
    Symlink,
    Other,
}

/// Why a file or directory that has to be there is refused.
pub open spec fn required_refusal(
    found: std::result::Result<ManagedEntryKind, IoFailure>,
    wants_directory: bool,
    missing: StorageErrorKind,
) -> Option<crate::error::ErrorView> {
    match found {
        Ok(kind) => if kind == ManagedEntryKind::Missing {
            Some(engine_open_view(missing))
        } else if wants_directory && kind == ManagedEntryKind::Directory || !wants_directory
            && kind is RegularFile {
            None
        } else {
            Some(engine_open_view(StorageErrorKind::InvalidLayout))
        },
        Err(failure) => if failure.cause == IoCause::NotFound {
            Some(engine_open_view(missing))
        } else {
            Some(
                engine_view(
                    StorageErrorKind::Io,
                    failure.os_code,
                    Operation::Open,
                    ProtocolStage::Preflight,
                ),
            )
        },
    }
}

/// Checks a file or a directory that has to be there.
pub fn require_entry(
    found: std::result::Result<ManagedEntryKind, IoFailure>,
    wants_directory: bool,
    missing: StorageErrorKind,
) -> (result: Result<()>)
    ensures
        match required_refusal(found, wants_directory, missing) {
            None => result is Ok,
            Some(view) => result matches Err(error) && error@ == view,
        },
{
    match found {
        Ok(kind) => match kind {
            ManagedEntryKind::Missing => Err(open_existing_error(missing)),
            ManagedEntryKind::Directory => {
                if wants_directory {
                    Ok(())
                } else {
                    Err(open_existing_error(StorageErrorKind::InvalidLayout))
                }
            },
            ManagedEntryKind::RegularFile { .. } => {
                if wants_directory {
                    Err(open_existing_error(StorageErrorKind::InvalidLayout))
                } else {
                    Ok(())
                }
            },
            _ => Err(open_existing_error(StorageErrorKind::InvalidLayout)),
        },
        Err(failure) => {
            if failure.cause == IoCause::NotFound {
                return Err(open_existing_error(missing));
            }
            Err(
                sanitized_storage_error(
                    StorageErrorKind::Io,
                    failure.os_code,
                    Operation::Open,
                    ProtocolStage::Preflight,
                ),
            )
        },
    }
}

/// Whether an engine may be made at a place: there is nothing there, or an empty directory.
pub fn validate_create_target(found: std::result::Result<bool, IoFailure>) -> (result: Result<()>)
    ensures
        match found {
            Ok(has_entries) => if has_entries {
                result matches Err(error) && error@ == engine_open_view(
                    StorageErrorKind::InvalidLayout,
                )
            } else {
                result is Ok
            },
            Err(failure) => if failure.cause == IoCause::NotFound {
                result is Ok
            } else if failure.cause == IoCause::NotADirectory {
                result matches Err(error) && error@ == engine_open_view(
                    StorageErrorKind::InvalidLayout,
                )
            } else {
                result matches Err(error) && error@ == engine_view(
                    StorageErrorKind::Io,
                    failure.os_code,
                    Operation::Open,
                    ProtocolStage::Preflight,
                )
            },
        },
{
    match found {
        Ok(has_entries) => {
            if has_entries {
                Err(open_existing_error(StorageErrorKind::InvalidLayout))
            } else {
                Ok(())
            }
        },
        Err(failure) => {
            if failure.cause == IoCause::NotFound {
                return Ok(());
            }
            if failure.cause == IoCause::NotADirectory {
                return Err(open_existing_error(StorageErrorKind::InvalidLayout));
            }
            Err(
                sanitized_storage_error(
                    StorageErrorKind::Io,
                    failure.os_code,
                    Operation::Open,
                    ProtocolStage::Preflight,
                ),
            )
        },
    }
}

/// Digits, at least one.
pub open spec fn all_digits(text: Seq<u8>) -> bool {
    text.len() > 0 && forall|i: int| 0 <= i < text.len() ==> is_digit(#[trigger] text[i])
}

/// The digits of a number that may have a plus sign before it.
pub open spec fn unsigned_digits(text: Seq<u8>) -> Seq<u8> {
    if text.len() > 0 && text[0] == 0x2b {
        text.skip(1)
    } else {
        text
    }
}

/// The number that a text spells, as far as it fits in 64 bits.
pub open spec fn spelled_number(text: Seq<u8>) -> Option<u64> {
    let digits = unsigned_digits(text);
    if all_digits(digits) && decimal_value(digits) <= u64::MAX {
        Some(decimal_value(digits) as u64)
    } else {
        None
    }
}

/// A longer text of digits spells no smaller number.
proof fn lemma_value_grows(digits: Seq<u8>, count: int)
    requires
        0 <= count <= digits.len(),
        forall|i: int| 0 <= i < digits.len() ==> is_digit(#[trigger] digits[i]),
    ensures
        decimal_value(digits.take(count)) <= decimal_value(digits),
    decreases digits.len() - count,
{
    if count < digits.len() {
        lemma_value_grows(digits, count + 1);
        assert(digits.take(count + 1).drop_last() =~= digits.take(count));
        assert(is_digit(digits[count]));
    } else {
        assert(digits.take(count) =~= digits);
    }
}

/// Reads the number that a part of a text spells.
pub fn parse_number(text: &[u8], from: usize, to: usize) -> (number: Option<u64>)
    requires
        from <= to <= text@.len(),
    ensures
        number == spelled_number(text@.subrange(from as int, to as int)),
{
    let ghost part = text@.subrange(from as int, to as int);
    let mut start: usize = from;
    if from < to && text[from] == 0x2b {
        start = from + 1;
    }
    let ghost digits = unsigned_digits(part);
    proof {
        assert(digits =~= text@.subrange(start as int, to as int));
    }
    if start == to {
        return None;
    }
    let mut value: u64 = 0;
    let mut i: usize = start;
    proof {
        assert(digits.take(0) =~= Seq::empty());
    }
    while i < to
        invariant
            start <= i <= to <= text@.len(),
            start < to,
            part == text@.subrange(from as int, to as int),
            digits == unsigned_digits(part),
            digits =~= text@.subrange(start as int, to as int),
            forall|k: int| 0 <= k < i - start ==> is_digit(#[trigger] digits[k]),
            value == decimal_value(digits.take(i - start)),
        decreases to - i,
    {
        let byte: u8 = text[i];
        proof {
            assert(digits[i - start] == byte);
            assert(digits.take(i - start + 1).drop_last() =~= digits.take(i - start));
            assert(digits.take(i - start + 1).last() == byte);
        }
        if byte < 0x30 || byte > 0x39 {
            proof {
                assert(!is_digit(digits[i - start]));
            }
            return None;
        }
        let digit: u64 = (byte - 0x30) as u64;
        let ghost next = 10 * value + digit;
        proof {
            assert(decimal_value(digits.take(i - start + 1)) == next);
        }
        if value > (u64::MAX - digit) / 10 {
            proof {
                assert(next > u64::MAX);
                if all_digits(digits) {
                    lemma_value_grows(digits, i - start + 1);
                }
            }
            return None;
        }
        value = value * 10 + digit;
        i = i + 1;
    }
    proof {
        assert(digits.take(to - start) =~= digits);
    }
    Some(value)
}

/// `.jnl`, little-endian.
pub const JOURNAL_SUFFIX: u64 = 0x6c_6e_6a_2e;

/// A name of a journal: a number as it is usually written, and `.jnl`.
pub open spec fn is_journal_name(name: Seq<u8>) -> bool {
    &&& name.len() > 4
    &&& name.skip(name.len() - 4) == le_bytes(JOURNAL_SUFFIX as nat, 4)
    &&& {
        let digits = name.take(name.len() - 4);
        &&& all_digits(digits)
        &&& decimal_value(digits) <= u64::MAX
        &&& digits.len() == 1 || digits[0] != 0x30
    }
}

fn is_journal(name: &[u8]) -> (journal: bool)
    ensures
        journal == is_journal_name(name@),
{
    let length: usize = name.len();
    if length <= 4 {
        return false;
    }
    let mut suffix: Vec<u8> = Vec::new();
    crate::bytes::append_le(&mut suffix, JOURNAL_SUFFIX, 4);
    proof {
        crate::bytes::lemma_le_bytes_len(JOURNAL_SUFFIX as nat, 4);
        assert(suffix@ =~= le_bytes(JOURNAL_SUFFIX as nat, 4));
        assert(name@.subrange(length - 4, length as int) =~= name@.skip(length - 4));
        assert(name@.subrange(0, length - 4) =~= name@.take(length - 4));
    }
    if !matches_at(name, length - 4, suffix.as_slice()) {
        return false;
    }
    let ghost digits = name@.take(length - 4);
    if name[0] == 0x2b {
        proof {
            assert(!is_digit(digits[0]));
        }
        return false;
    }
    if parse_number(name, 0, length - 4).is_none() {
        return false;
    }
    length == 5 || name[0] != 0x30
}

/// `version`
pub open spec fn version_marker() -> Seq<u8> {
    seq![0x76u8, 0x65u8, 0x72u8, 0x73u8, 0x69u8, 0x6fu8, 0x6eu8]
}

/// `lock`
pub open spec fn lock_file() -> Seq<u8> {
    seq![0x6cu8, 0x6fu8, 0x63u8, 0x6bu8]
}

/// `keyspaces`
pub open spec fn keyspaces_directory() -> Seq<u8> {
    seq![0x6bu8, 0x65u8, 0x79u8, 0x73u8, 0x70u8, 0x61u8, 0x63u8, 0x65u8, 0x73u8]
}

/// `tables`
pub open spec fn tables_directory() -> Seq<u8> {
    seq![0x74u8, 0x61u8, 0x62u8, 0x6cu8, 0x65u8, 0x73u8]
}

/// `.DS_Store`
pub open spec fn finder_file() -> Seq<u8> {
    seq![0x2eu8, 0x44u8, 0x53u8, 0x5fu8, 0x53u8, 0x74u8, 0x6fu8, 0x72u8, 0x65u8]
}

fn is_managed_name(name: &[u8]) -> (managed: bool)
    ensures
        managed == (name@ == version_marker() || name@ == lock_file() || name@
            == keyspaces_directory()),
{
    let version: [u8; 7] = [0x76, 0x65, 0x72, 0x73, 0x69, 0x6f, 0x6e];
    let lock: [u8; 4] = [0x6c, 0x6f, 0x63, 0x6b];
    let keyspaces: [u8; 9] = [0x6b, 0x65, 0x79, 0x73, 0x70, 0x61, 0x63, 0x65, 0x73];
    proof {
        assert(version@ =~= version_marker());
        assert(lock@ =~= lock_file());
        assert(keyspaces@ =~= keyspaces_directory());
    }
    same_bytes(name, version.as_slice()) || same_bytes(name, lock.as_slice()) || same_bytes(
        name,
        keyspaces.as_slice(),
    )
}

/// What an entry of the engine's directory is: `Some(true)` for a journal, `Some(false)` for
/// another thing that may be there, `None` for what may not. A name that is no text is `None`.
pub open spec fn top_entry(name: Option<Seq<u8>>, entry_type: EntryType, allow_symlinks: bool) -> Option<
    bool,
> {
    match name {
        None => None,
        Some(name) => if allow_symlinks && entry_type == EntryType::Symlink {
            Some(false)
        } else if name == version_marker() || name == lock_file() || name
            == keyspaces_directory() {
            Some(false)
        } else if is_journal_name(name) && entry_type == EntryType::File {
            Some(true)
        } else {
            None
        },
    }
}

/// Looks at an entry of the engine's directory. Says whether it is a journal.
pub fn check_top_entry(name: Option<&[u8]>, entry_type: EntryType, allow_symlinks: bool) -> (result:
    Result<bool>)
    ensures
        match top_entry(
            match name {
                Some(bytes) => Some(bytes@),
                None => None,
            },
            entry_type,
            allow_symlinks,
        ) {
            Some(journal) => result matches Ok(found) && found == journal,
            None => result matches Err(error) && error@ == engine_open_view(
                StorageErrorKind::InvalidLayout,
            ),
        },
{
    let name = match name {
        Some(name) => name,
        None => return Err(open_existing_error(StorageErrorKind::InvalidLayout)),
    };
    if allow_symlinks && entry_type == EntryType::Symlink {
        return Ok(false);
    }
    if is_managed_name(name) {
        return Ok(false);
    }
    if !is_journal(name) || entry_type != EntryType::File {
        return Err(open_existing_error(StorageErrorKind::InvalidLayout));
    }
    Ok(true)
}

/// An engine without a journal is not one.
pub fn check_journal_found(has_journal: bool) -> (result: Result<()>)
    ensures
        match result {
            Ok(_) => has_journal,
            Err(error) => !has_journal && error@ == engine_open_view(StorageErrorKind::Corruption),
        },
{
    if !has_journal {
        return Err(open_existing_error(StorageErrorKind::Corruption));
    }
    Ok(())
}

/// The trees that were found: one for the engine itself, and one for each keyspace.
#[derive(Clone, Copy, Debug)]
pub struct KeyspaceTrees {
    pub found: [bool; 4],
}

/// The tree that a name stands for.
pub open spec fn tree_of(name: Option<Seq<u8>>) -> Option<int> {
    match name {
        Some(name) => if name.len() == 1 && 0x30 <= name[0] <= 0x33 {
            Some(name[0] - 0x30)
        } else {
            None
        },
        None => None,
    }
}

/// What an entry of the directory of the trees does. `None` where it may not be there.
pub open spec fn found_tree(
    found: Seq<bool>,
    name: Option<Seq<u8>>,
    entry_type: EntryType,
    allow_symlinks: bool,
) -> Option<Seq<bool>> {
    if allow_symlinks && entry_type == EntryType::Symlink {
        Some(found)
    } else {
        match tree_of(name) {
            Some(tree) => if found[tree] || entry_type != EntryType::Directory {
                None
            } else {
                Some(found.update(tree, true))
            },
            None => None,
        }
    }
}

impl KeyspaceTrees {
    pub fn new() -> (trees: Self)
        ensures
            trees.found@ == seq![false, false, false, false],
    {
        let found: [bool; 4] = [false, false, false, false];
        proof {
            assert(found@ =~= seq![false, false, false, false]);
        }
        KeyspaceTrees { found }
    }

    /// Looks at an entry of the directory of the trees. Says whether it is a tree to look into.
    pub fn entry(&mut self, name: Option<&[u8]>, entry_type: EntryType, allow_symlinks: bool) -> (result:
        Result<bool>)
        ensures
            ({
                let name = match name {
                    Some(bytes) => Some(bytes@),
                    None => None,
                };
                match found_tree(old(self).found@, name, entry_type, allow_symlinks) {
                    Some(found) => {
                        &&& final(self).found@ == found
                        &&& result matches Ok(tree) && tree == (found != old(self).found@)
                    },
                    None => {
                        &&& *final(self) == *old(self)
                        &&& result matches Err(error) && error@ == engine_open_view(
                            StorageErrorKind::InvalidLayout,
                        )
                    },
                }
            }),
    {
        if allow_symlinks && entry_type == EntryType::Symlink {
            return Ok(false);
        }
        let tree: usize = match name {
            Some(name) => {
                let length: usize = name.len();
                if length != 1 || name[0] < 0x30 || name[0] > 0x33 {
                    return Err(open_existing_error(StorageErrorKind::InvalidLayout));
                }
                (name[0] - 0x30) as usize
            },
            None => return Err(open_existing_error(StorageErrorKind::InvalidLayout)),
        };
        if self.found[tree] || entry_type != EntryType::Directory {
            return Err(open_existing_error(StorageErrorKind::InvalidLayout));
        }
        let ghost before = self.found@;
        self.found[tree] = true;
        proof {
            assert(self.found@ =~= before.update(tree as int, true));
            assert(self.found@[tree as int] != before[tree as int]);
        }
        Ok(true)
    }

    /// Every tree has to be there.
    pub fn complete(&self) -> (result: Result<()>)
        ensures
            match result {
                Ok(_) => self.found@ == seq![true, true, true, true],
                Err(error) => self.found@ != seq![true, true, true, true] && error@
                    == engine_open_view(StorageErrorKind::InvalidLayout),
            },
    {
        if self.found[0] && self.found[1] && self.found[2] && self.found[3] {
            proof {
                assert(self.found@ =~= seq![true, true, true, true]);
            }
            return Ok(());
        }
        proof {
            let all = seq![true, true, true, true];
            assert(all[0] && all[1] && all[2] && all[3]);
        }
        Err(open_existing_error(StorageErrorKind::InvalidLayout))
    }
}

/// The length of the marker that names the current version of a tree.
pub const CURRENT_MARKER_LEN: usize = 25;

/// The current version of a tree, as its marker says it.
pub fn current_version(marker: &[u8]) -> (result: Result<u64>)
    ensures
        if marker@.len() == CURRENT_MARKER_LEN && marker@[CURRENT_MARKER_LEN - 1] == 0 {
            result matches Ok(version) && version == u64_at(marker@, 0)
        } else {
            result matches Err(error) && error@ == engine_open_view(StorageErrorKind::Corruption)
        },
{
    let length: usize = marker.len();
    if length != CURRENT_MARKER_LEN || marker[CURRENT_MARKER_LEN - 1] != 0 {
        return Err(open_existing_error(StorageErrorKind::Corruption));
    }
    Ok(read_u64(marker, 0))
}

/// What may be in the directory of a tree: the marker, the tables, versions, and files that the
/// engine does not look at.
pub open spec fn fits_tree(name: Option<Seq<u8>>, entry_type: EntryType, allow_symlinks: bool) -> bool {
    match name {
        None => false,
        Some(name) => {
            ||| allow_symlinks && entry_type == EntryType::Symlink
            ||| name == tables_directory() && entry_type == EntryType::Directory
            ||| entry_type == EntryType::File && (name.len() == 0 || name[0] != 0x76)
            ||| entry_type == EntryType::File && name.len() > 0 && name[0] == 0x76
                && spelled_number(name.skip(1)) is Some
        },
    }
}

pub fn check_tree_entry(name: Option<&[u8]>, entry_type: EntryType, allow_symlinks: bool) -> (result:
    Result<()>)
    ensures
        ({
            let fits = fits_tree(
                match name {
                    Some(bytes) => Some(bytes@),
                    None => None,
                },
                entry_type,
                allow_symlinks,
            );
            match result {
                Ok(_) => fits,
                Err(error) => !fits && error@ == engine_open_view(
                    StorageErrorKind::InvalidLayout,
                ),
            }
        }),
{
    let name = match name {
        Some(name) => name,
        None => return Err(open_existing_error(StorageErrorKind::InvalidLayout)),
    };
    if allow_symlinks && entry_type == EntryType::Symlink {
        return Ok(());
    }
    let tables: [u8; 6] = [0x74, 0x61, 0x62, 0x6c, 0x65, 0x73];
    proof {
        assert(tables@ =~= tables_directory());
    }
    if entry_type == EntryType::Directory && same_bytes(name, tables.as_slice()) {
        return Ok(());
    }
    let length: usize = name.len();
    if entry_type == EntryType::File {
        if length == 0 || name[0] != 0x76 {
            return Ok(());
        }
        proof {
            assert(name@.subrange(1, length as int) =~= name@.skip(1));
        }
        if parse_number(name, 1, length).is_some() {
            return Ok(());
        }
    }
    Err(open_existing_error(StorageErrorKind::InvalidLayout))
}

/// What may be among the tables: files with a number for a name, and what a desktop leaves.
pub open spec fn fits_tables(name: Option<Seq<u8>>, entry_type: EntryType, allow_symlinks: bool) -> bool {
    ||| allow_symlinks && entry_type == EntryType::Symlink
    ||| (name matches Some(name) && entry_type == EntryType::File && (name == finder_file() || (
    name.len() >= 2 && name[0] == 0x2e && name[1] == 0x5f) || spelled_number(name) is Some))
}

pub fn check_table_entry(name: Option<&[u8]>, entry_type: EntryType, allow_symlinks: bool) -> (result:
    Result<()>)
    ensures
        ({
            let fits = fits_tables(
                match name {
                    Some(bytes) => Some(bytes@),
                    None => None,
                },
                entry_type,
                allow_symlinks,
            );
            match result {
                Ok(_) => fits,
                Err(error) => !fits && error@ == engine_open_view(
                    StorageErrorKind::InvalidLayout,
                ),
            }
        }),
{
    if allow_symlinks && entry_type == EntryType::Symlink {
        return Ok(());
    }
    if entry_type != EntryType::File {
        return Err(open_existing_error(StorageErrorKind::InvalidLayout));
    }
    let name = match name {
        Some(name) => name,
        None => return Err(open_existing_error(StorageErrorKind::InvalidLayout)),
    };
    let finder: [u8; 9] = [0x2e, 0x44, 0x53, 0x5f, 0x53, 0x74, 0x6f, 0x72, 0x65];
    let length: usize = name.len();
    proof {
        assert(finder@ =~= finder_file());
        assert(name@.subrange(0, length as int) =~= name@);
    }
    if same_bytes(name, finder.as_slice()) || (length >= 2 && name[0] == 0x2e && name[1] == 0x5f)
        || parse_number(name, 0, length).is_some() {
        return Ok(());
    }
    Err(open_existing_error(StorageErrorKind::InvalidLayout))
}

proof fn lemma_journal_suffix()
    ensures
        le_bytes(JOURNAL_SUFFIX as nat, 4) == seq![0x2eu8, 0x6au8, 0x6eu8, 0x6cu8],
{
    reveal_with_fuel(le_bytes, 5);
    assert(le_bytes(JOURNAL_SUFFIX as nat, 4) =~= seq![0x2eu8, 0x6au8, 0x6eu8, 0x6cu8]);
}

/// A journal is a file whose name is a number of at most sixty-four bits as it is usually
/// written, followed by `.jnl`; no other file of that ending is one, and nothing but a file is.
/// The marker of the version, the lock and the directory of the trees are at home beside it.
pub proof fn law_journals_are_known_by_name(digits: Seq<u8>, entry_type: EntryType)
    ensures
        ({
            let suffix = seq![0x2eu8, 0x6au8, 0x6eu8, 0x6cu8];
            let usual = all_digits(digits) && decimal_value(digits) <= u64::MAX && (digits.len()
                == 1 || digits[0] != 0x30);
            &&& is_journal_name(digits + suffix) <==> usual
            &&& usual ==> top_entry(Some(digits + suffix), EntryType::File, false) == Some(true)
            &&& entry_type != EntryType::File && usual ==> top_entry(
                Some(digits + suffix),
                entry_type,
                false,
            ) is None
            &&& !usual && digits.len() > 5 ==> top_entry(
                Some(digits + suffix),
                EntryType::File,
                false,
            ) is None
            &&& top_entry(Some(version_marker()), entry_type, false) == Some(false)
            &&& top_entry(Some(lock_file()), entry_type, false) == Some(false)
            &&& top_entry(Some(keyspaces_directory()), entry_type, false) == Some(false)
            &&& top_entry(None, entry_type, false) is None
        }),
{
    lemma_journal_suffix();
    let suffix = seq![0x2eu8, 0x6au8, 0x6eu8, 0x6cu8];
    let name = digits + suffix;
    assert(name.skip(name.len() - 4) =~= suffix);
    assert(name.take(name.len() - 4) =~= digits);
}

/// The four trees are the directories named by the digits from zero to three, each found once;
/// nothing else may be beside them.
pub proof fn law_trees_are_known_by_name(
    found: Seq<bool>,
    name: Seq<u8>,
    entry_type: EntryType,
    tree: int,
)
    requires
        found.len() == 4,
        0 <= tree < 4,
    ensures
        ({
            let digit = seq![(0x30 + tree) as u8];
            let after = found_tree(found, Some(digit), EntryType::Directory, false);
            &&& tree_of(Some(digit)) == Some(tree)
            &&& after is Some <==> !found[tree]
            &&& after matches Some(now) ==> {
                &&& now.len() == 4
                &&& now[tree]
                &&& forall|other: int|
                    0 <= other < 4 && other != tree ==> #[trigger] now[other] == found[other]
                &&& found_tree(now, Some(digit), EntryType::Directory, false) is None
            }
            &&& entry_type != EntryType::Directory ==> found_tree(
                found,
                Some(name),
                entry_type,
                false,
            ) is None
            &&& (forall|k: int| 0 <= k < 4 ==> name != seq![#[trigger] (0x30 + k) as u8])
                ==> found_tree(found, Some(name), entry_type, false) is None
        }),
{
    if name.len() == 1 && 0x30 <= name[0] <= 0x33 {
        let k = name[0] - 0x30;
        assert(name =~= seq![(0x30 + k) as u8]);
    }
}

/// A tree may hold its tables and any file, but that a file whose name begins like that of a
/// version has to go on with a number. Among the tables are files with a number for a name, and
/// what a desktop leaves.
pub proof fn law_files_of_a_tree(name: Seq<u8>, entry_type: EntryType)
    ensures
        fits_tree(Some(name), entry_type, false) <==> match entry_type {
            EntryType::Directory => name == tables_directory(),
            EntryType::File => name.len() == 0 || name[0] != 0x76 || spelled_number(name.skip(1))
                is Some,
            _ => false,
        },
        fits_tables(Some(name), entry_type, false) <==> entry_type == EntryType::File && (
        spelled_number(name) is Some || name == finder_file() || (name.len() >= 2 && name[0] == 0x2e
            && name[1] == 0x5f)),
        !fits_tree(None, entry_type, false),
        !fits_tables(None, entry_type, false),
        all_digits(name) && decimal_value(name) <= u64::MAX ==> spelled_number(name) == Some(
            decimal_value(name) as u64,
        ) && spelled_number(seq![0x2bu8] + name) == Some(decimal_value(name) as u64),
        spelled_number(name) is Some ==> exists|i: int|
            0 <= i < name.len() && is_digit(#[trigger] name[i]),
{
    assert((seq![0x2bu8] + name).skip(1) =~= name);
    if spelled_number(name) is Some {
        assert(is_digit(name[name.len() - 1])) by {
            let digits = unsigned_digits(name);
            assert(is_digit(digits[digits.len() - 1]));
        }
    }
}

/// What has to be there is taken exactly where it is there and of the right kind.
pub proof fn law_required_entries(
    found: std::result::Result<ManagedEntryKind, IoFailure>,
    wants_directory: bool,
    missing: StorageErrorKind,
)
    ensures
        ({
            let refusal = required_refusal(found, wants_directory, missing);
            let absent = match found {
                Ok(kind) => kind == ManagedEntryKind::Missing,
                Err(failure) => failure.cause == IoCause::NotFound,
            };
            &&& refusal is None <==> (found matches Ok(kind) && if wants_directory {
                kind == ManagedEntryKind::Directory
            } else {
                kind is RegularFile
            })
            &&& refusal matches Some(error) ==> error.operation == Operation::Open && error.kind
                == if absent {
                missing
            } else if found is Ok {
                StorageErrorKind::InvalidLayout
            } else {
                StorageErrorKind::Io
            }
        }),
{
}

} // verus!
