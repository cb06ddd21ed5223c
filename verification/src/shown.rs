//! How an error is shown to someone who looks for a fault.

use vstd::prelude::*;

use crate::error::{
    ErrorView, InstanceState, Operation, ProtocolStage, RetryAdvice, StorageErrorKind,
    WriteOutcome,
};

verus! {

/// `std::fmt::Formatter`, which takes the text.
#[verifier::external_type_specification]
#[verifier::external_body]
pub struct ExFormatter<'a>(std::fmt::Formatter<'a>);

/// `std::fmt::Error`, which a formatter fails with.
#[verifier::external_type_specification]
#[verifier::external_body]
pub struct ExFormatError(std::fmt::Error);

/// What is shown of an error. It has the name of the error, which is shown as well.
#[derive(Debug)]
pub struct StorageError<'a> {
    pub schema_version: u16,
    pub kind: StorageErrorKind,
    pub operation: Operation,
    pub protocol_stage: ProtocolStage,
    pub write_outcome: Option<WriteOutcome>,
    pub instance_state: Option<InstanceState>,
    pub retry_advice: RetryAdvice,
    pub os_code: Option<i32>,
    pub commit_seq: Option<u64>,
    pub tx_uuid: Option<[u8; 16]>,
    pub vlog_file_id: Option<u32>,
    pub vlog_offset: Option<u64>,
    pub destroy_failure: bool,
    pub message: &'a String,
    pub source: bool,
}

/// What is shown, as a mathematical value: the fields of the error, without the context of a
/// failed destruction, and whether there is such a context and an error behind this one.
#[verifier::ext_equal]
pub struct ShownView {
    pub fields: ErrorView,
    pub destroy_failure: bool,
    pub source: bool,
}

impl View for StorageError<'_> {
    type V = ShownView;

    open spec fn view(&self) -> ShownView {
        ShownView {
            fields: ErrorView {
                schema_version: self.schema_version,
                kind: self.kind,
                operation: self.operation,
                protocol_stage: self.protocol_stage,
                write_outcome: self.write_outcome,
                instance_state: self.instance_state,
                retry_advice: self.retry_advice,
                os_code: self.os_code,
                commit_seq: self.commit_seq,
                tx_uuid: self.tx_uuid,
                vlog_file_id: self.vlog_file_id,
                vlog_offset: self.vlog_offset,
                destroy_failure: None,
                message: self.message@,
            },
            destroy_failure: self.destroy_failure,
            source: self.source,
        }
    }
}

/// Calls `std::fmt::Debug::fmt`, which writes the name and every field of what is shown to a
/// formatter. Nothing is said of the text, nor of whether the formatter takes it.
#[verifier::external_body]
pub(crate) fn show(shown: &StorageError<'_>, formatter: &mut std::fmt::Formatter<'_>) -> (result:
    std::fmt::Result) {
    std::fmt::Debug::fmt(shown, formatter)
}

} // verus!
