//! Reading a value: from an encoded pointer to the value in its record.

use vstd::prelude::*;

use crate::bytes::{append_zeros, same_bytes, zeros};
use crate::error::{
    detached_error, ErrorView, Operation, ProtocolStage, Result, RetryAdvice, StorageError,
    StorageErrorKind,
};
use crate::io_failure::IoFailure;
use crate::memory::{asked, Memory};
use crate::vlog::decode::{decode_record_at, law_record_round_trip, lemma_record_front, record_error};
use crate::vlog::envelope::{
    envelope, lemma_planned_all, lemma_records_valid, operation_fits, operation_length, planned_all,
    value_pointer, TransactionView,
};
use crate::vlog::file_set::{read_context, read_corruption, seen_by_read};
use crate::vlog::geometry::{
    decode_view, record_fits, ChunkView, VLogGeometry, VLogPosition, MAX_VLOG_FILE_ID,
    MAX_VLOG_FILE_SIZE, VLOG_PAGE_SIZE,
};
use crate::vlog::layout::{can_go_on, LayoutPlanner};
use crate::vlog::locate::lemma_record_not_refused;
use crate::vlog::pointer::{pointer_error, ValuePointer};
use crate::vlog::record::{record_at, DecodedRecord, RecordView};

verus! {

/// A value that is being read: the caller opens the file, reads the record and hands its
/// length and its bytes back.
#[derive(Clone, Copy, Debug)]
pub struct ValueRead {
    pointer: ValuePointer,
}

/// Where a pointer points to.
pub open spec fn pointed_at(pointer: ValuePointer) -> VLogPosition {
    VLogPosition { file_id: pointer.file_id, offset: pointer.record_offset as u64 }
}

/// An error at the place that a pointer points to.
pub open spec fn at_pointer(error: ErrorView, pointer: ValuePointer) -> ErrorView {
    error.with_place(Some(pointer.file_id), Some(pointer.record_offset as u64))
}

/// A record holds the value that a pointer promises for a key.
pub open spec fn holds_value(
    bytes: Seq<u8>,
    pointer: ValuePointer,
    geometry: VLogGeometry,
    key: Seq<u8>,
    value: Seq<u8>,
) -> bool {
    exists|record: RecordView|
        #![trigger record.bytes()]
        {
            &&& record_at(record, pointed_at(pointer), geometry)
            &&& bytes == record.bytes()
            &&& record is Put
            &&& record->Put_key == key
            &&& record->Put_value == value
            &&& key.len() == pointer.record_layout().key_len
            &&& value.len() == pointer.value_len
        }
}

pub open spec fn read_resource_view(pointer: ValuePointer) -> ErrorView {
    at_pointer(
        detached_error(
            StorageErrorKind::ResourceExhausted,
            Operation::Get,
            ProtocolStage::Read,
            None,
            RetryAdvice::RetrySameInstance,
        ),
        pointer,
    )
}

impl View for ValueRead {
    type V = ValuePointer;

    closed spec fn view(&self) -> ValuePointer {
        self.pointer
    }
}

impl ValueRead {
    #[verifier::type_invariant]
    spec fn well_formed(&self) -> bool {
        self.pointer.valid()
    }

    /// Starts from an encoded pointer.
    pub fn start(encoded_pointer: &[u8]) -> (result: Result<Self>)
        ensures
            match result {
                Ok(read) => read@.valid() && encoded_pointer@ == read@.encoded(),
                Err(error) => {
                    &&& error@ == decode_view(pointer_error(encoded_pointer@))
                    &&& forall|pointer: ValuePointer|
                        pointer.valid() ==> encoded_pointer@ != #[trigger] pointer.encoded()
                },
            },
    {
        match ValuePointer::decode(encoded_pointer) {
            Ok(pointer) => Ok(ValueRead { pointer }),
            Err(error) => Err(read_context(error, None, None)),
        }
    }

    /// Starts from a pointer.
    pub fn from_pointer(pointer: ValuePointer) -> (result: Result<Self>)
        ensures
            match result {
                Ok(read) => pointer.valid() && read@ == pointer,
                Err(error) => pointer.refusal() matches Some(kind) && error@ == at_pointer(
                    decode_view(kind),
                    pointer,
                ),
            },
    {
        match pointer.layout() {
            Ok(_) => Ok(ValueRead { pointer }),
            Err(error) => Err(
                read_context(error, Some(pointer.file_id), Some(pointer.record_offset as u64)),
            ),
        }
    }

    /// The file that holds the record.
    pub fn file_id(&self) -> (file_id: u32)
        ensures
            file_id == self@.file_id,
    {
        self.pointer.file_id
    }

    /// Where the record begins in its file.
    pub fn offset(&self) -> (offset: u64)
        ensures
            offset == self@.record_offset,
    {
        self.pointer.record_offset as u64
    }

    /// What is answered when the length of the file cannot be had.
    pub fn length_unknown(&self, failure: IoFailure) -> (error: StorageError)
        ensures
            error@ == at_pointer(
                detached_error(
                    StorageErrorKind::Io,
                    Operation::Get,
                    ProtocolStage::Read,
                    None,
                    RetryAdvice::FixEnvironmentAndReopen,
                ).with_os_code(failure.os_code),
                self@,
            ),
    {
        let mut error = StorageError::codec_error(
            StorageErrorKind::Io,
            Operation::Get,
            ProtocolStage::Read,
            None,
            RetryAdvice::FixEnvironmentAndReopen,
        );
        error.os_code = failure.os_code;
        error.vlog_file_id = Some(self.pointer.file_id);
        error.vlog_offset = Some(self.pointer.record_offset as u64);
        error
    }

    /// Checks that the record lies inside a file of some length, and gives a zeroed buffer for
    /// it.
    pub fn buffer(&self, memory: &mut Memory, file_len: u64) -> (result: Result<Vec<u8>>)
        requires
            !old(memory).refused(),
        ensures
            if !self@.in_bounds(file_len) {
                &&& !final(memory).refused()
                &&& result matches Err(error) && error@ == at_pointer(
                    decode_view(StorageErrorKind::Corruption),
                    self@,
                )
            } else if final(memory).refused() {
                result matches Err(error) && error@ == read_resource_view(self@)
            } else {
                result matches Ok(buffer) && buffer@ == zeros(self@.record_len as nat)
            },
            if self@.in_bounds(file_len) {
                asked(*old(memory), *final(memory), 1, self@.record_len as nat)
            } else {
                *final(memory) == *old(memory)
            },
    {
        proof {
            use_type_invariant(self);
        }
        match self.pointer.validate_file_bounds(file_len) {
            Ok(_) => {},
            Err(error) => {
                return Err(read_context(error, Some(self.file_id()), Some(self.offset())));
            },
        }
        let length: usize = self.pointer.record_len as usize;
        let mut buffer: Vec<u8> = Vec::new();
        if !memory.reserve_exact(&mut buffer, length) {
            return Err(self.resource_error());
        }
        append_zeros(&mut buffer, length);
        proof {
            assert(buffer@ =~= zeros(self.pointer.record_len as nat));
        }
        Ok(buffer)
    }

    /// Takes the value out of the bytes of the record.
    pub fn finish(
        &self,
        memory: &mut Memory,
        encoded: &[u8],
        geometry: VLogGeometry,
        expected_key: &[u8],
    ) -> (result: Result<Vec<u8>>)
        requires
            !old(memory).refused(),
            geometry.valid(),
        ensures
            match result {
                Ok(value) => !final(memory).refused() && holds_value(
                    encoded@,
                    self@,
                    geometry,
                    expected_key@,
                    value@,
                ),
                Err(error) => if final(memory).refused() {
                    error@ == read_resource_view(self@)
                } else {
                    &&& error@ == at_pointer(
                        decode_view(record_error(encoded@, pointed_at(self@), geometry)),
                        self@,
                    )
                    &&& forall|value: Seq<u8>|
                        !#[trigger] holds_value(encoded@, self@, geometry, expected_key@, value)
                },
            },
            if exists|value: Seq<u8>| #[trigger]
                holds_value(encoded@, self@, geometry, expected_key@, value) {
                asked(*old(memory), *final(memory), 1, self@.value_len as nat)
            } else {
                *final(memory) == *old(memory)
            },
    {
        proof {
            use_type_invariant(self);
        }
        let start = VLogPosition { file_id: self.file_id(), offset: self.offset() };
        let decoded = match decode_record_at(encoded, start, geometry) {
            Ok(decoded) => decoded,
            Err(error) => {
                return Err(read_context(error, Some(start.file_id), Some(start.offset)));
            },
        };
        let ghost found = decoded.record();
        proof {
            lemma_record_not_refused(found, start, geometry);
            assert forall|record: RecordView|
                record_at(record, start, geometry) && encoded@
                    == #[trigger] record.bytes() implies record == found by {
                law_record_round_trip(record, found);
            }
        }
        match decoded {
            DecodedRecord::KvRecord(record) => {
                let layout = self.pointer.layout()?;
                if !same_bytes(record.key, expected_key) || record.key.len()
                    != layout.key_len as usize || record.value.len()
                    != self.pointer.value_len as usize {
                    return Err(read_corruption(start.file_id, Some(start.offset)));
                }
                proof {
                    assert(encoded@ == found.bytes());
                    assert(holds_value(
                        encoded@,
                        self@,
                        geometry,
                        expected_key@,
                        record.value@,
                    ));
                }
                match memory.copy(record.value) {
                    Some(value) => Ok(value),
                    None => Err(self.resource_error()),
                }
            },
            _ => Err(read_corruption(start.file_id, Some(start.offset))),
        }
    }

    fn resource_error(&self) -> (error: StorageError)
        ensures
            error@ == read_resource_view(self@),
    {
        let mut error = StorageError::codec_error(
            StorageErrorKind::ResourceExhausted,
            Operation::Get,
            ProtocolStage::Read,
            None,
            RetryAdvice::RetrySameInstance,
        );
        error.vlog_file_id = Some(self.pointer.file_id);
        error.vlog_offset = Some(self.pointer.record_offset as u64);
        error
    }
}

/// Checks that a reader fits the files that it reads.
pub fn validate_reader(files_geometry: VLogGeometry, geometry: VLogGeometry) -> (result: Result<()>)
    ensures
        match result {
            Ok(_) => geometry.valid() && files_geometry == geometry,
            Err(error) => {
                ||| !geometry.valid() && error@ == seen_by_read(
                    crate::vlog::geometry::invalid_vlog_view(StorageErrorKind::InvalidArgument),
                    None,
                    None,
                )
                ||| geometry.valid() && files_geometry != geometry && error@ == detached_error(
                    StorageErrorKind::InvalidArgument,
                    Operation::Get,
                    ProtocolStage::Read,
                    None,
                    RetryAdvice::FixRequestAndRetrySameInstance,
                )
            },
        },
{
    match LayoutPlanner::empty(geometry) {
        Ok(_) => {},
        Err(error) => return Err(read_context(error, None, None)),
    }
    if files_geometry != geometry {
        return Err(
            StorageError::codec_error(
                StorageErrorKind::InvalidArgument,
                Operation::Get,
                ProtocolStage::Read,
                None,
                RetryAdvice::FixRequestAndRetrySameInstance,
            ),
        );
    }
    Ok(())
}

/// A record holds one value only.
pub proof fn law_one_value_per_record(
    bytes: Seq<u8>,
    pointer: ValuePointer,
    geometry: VLogGeometry,
    key: Seq<u8>,
    a: Seq<u8>,
    b: Seq<u8>,
)
    requires
        holds_value(bytes, pointer, geometry, key, a),
        holds_value(bytes, pointer, geometry, key, b),
    ensures
        a == b,
{
    let r = choose|record: RecordView|
        #![trigger record.bytes()]
        {
            &&& record_at(record, pointed_at(pointer), geometry)
            &&& bytes == record.bytes()
            &&& record is Put
            &&& record->Put_key == key
            &&& record->Put_value == a
        };
    let s = choose|record: RecordView|
        #![trigger record.bytes()]
        {
            &&& record_at(record, pointed_at(pointer), geometry)
            &&& bytes == record.bytes()
            &&& record is Put
            &&& record->Put_key == key
            &&& record->Put_value == b
        };
    law_record_round_trip(r, s);
}

/// A file holds the chunks of an envelope that belong to it.
pub open spec fn file_holds(file: Seq<u8>, file_id: u32, chunks: Seq<ChunkView>) -> bool {
    forall|i: int|
        0 <= i < chunks.len() && (#[trigger] chunks[i]).position.file_id == file_id ==> {
            &&& chunks[i].position.offset + chunks[i].bytes.len() <= file.len()
            &&& file.subrange(
                chunks[i].position.offset as int,
                chunks[i].position.offset + chunks[i].bytes.len(),
            ) == chunks[i].bytes
        }
}

/// A value that was put can be read: the pointer that was made for a put is valid, leads into
/// the file that holds the envelope, and what lies there holds the value for the key.
pub proof fn law_put_value_is_read_back(
    position: VLogPosition,
    transaction: TransactionView,
    i: int,
    file: Seq<u8>,
)
    requires
        can_go_on(production(), position),
        envelope(production(), position, transaction) is Ok,
        0 <= i < transaction.operations.len(),
        transaction.operations[i] is Put,
        file.len() <= MAX_VLOG_FILE_SIZE,
        ({
            let written = envelope(production(), position, transaction)->Ok_0;
            file_holds(file, (written.value_pointers[i]->0).file_id, written.chunks)
        }),
    ensures
        ({
            let written = envelope(production(), position, transaction)->Ok_0;
            let pointer = written.value_pointers[i]->0;
            &&& written.value_pointers[i] is Some
            &&& pointer.valid()
            &&& pointer.in_bounds(file.len() as u64)
            &&& holds_value(
                file.subrange(
                    pointer.record_offset as int,
                    pointer.record_offset + pointer.record_len,
                ),
                pointer,
                production(),
                transaction.operations[i]->Put_key,
                transaction.operations[i]->Put_value,
            )
        }),
{
    let geometry = production();
    let written = envelope(geometry, position, transaction)->Ok_0;
    let lengths = transaction.lengths();
    let (plans, vlog_end) = planned_all(geometry, position, lengths)->Ok_0;
    lemma_planned_all(geometry, position, lengths);
    lemma_records_valid(transaction, position, vlog_end, 0);
    let plan = plans[i + 1];
    let record = transaction.operation_record(i);
    let records = transaction.records(position, vlog_end);
    let pointer = value_pointer(plan, transaction.operations[i])->0;
    assert(written.value_pointers[i] == value_pointer(plan, transaction.operations[i]));
    assert(operation_fits(transaction.operations[i]));
    assert(lengths[i + 1] == operation_length(transaction.operations[i]));
    assert(record_fits(lengths[i + 1] as nat, plan.record_start, geometry));
    assert(records[i + 1] == record);
    lemma_record_front(record);
    let at = crate::vlog::round_trip::lemma_record_chunk(transaction, plans, records, i + 1);
    assert(written.chunks[at].position == plan.record_start);
    assert(file.subrange(
        pointer.record_offset as int,
        pointer.record_offset + pointer.record_len,
    ) == record.bytes());
    assert(record_at(record, pointed_at(pointer), geometry));
}

/// The geometry of databases on disk.
pub open spec fn production() -> VLogGeometry {
    VLogGeometry {
        page_size: VLOG_PAGE_SIZE,
        max_file_size: MAX_VLOG_FILE_SIZE,
        max_file_id: MAX_VLOG_FILE_ID,
    }
}

/// What is wrong with a value is told at the place of its record, and else as it is. Without memory
/// a read may be tried again.
pub proof fn law_bad_value_is_told_with_its_place(error: ErrorView, pointer: ValuePointer)
    ensures
        at_pointer(error, pointer).vlog_file_id == Some(pointer.file_id),
        at_pointer(error, pointer).vlog_offset == Some(pointer.record_offset as u64),
        at_pointer(error, pointer).with_place(error.vlog_file_id, error.vlog_offset) == error,
        read_resource_view(pointer).kind == StorageErrorKind::ResourceExhausted,
        read_resource_view(pointer).operation == Operation::Get,
        read_resource_view(pointer).retry_advice == RetryAdvice::RetrySameInstance,
        read_resource_view(pointer).vlog_file_id == Some(pointer.file_id),
{
}

} // verus!
