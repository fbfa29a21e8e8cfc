//! Views: a value and its view say the same, part by part.

use vstd::prelude::*;
use crate::bitlocker::{BitLockerDecryptError, BitLockerDecryptErrorView, BitLockerEncryptionMethod,
    BitLockerInspection, MetadataFields, MetadataOutcome, MetadataOutcomeView};
use crate::cli::{ArgumentError, ArgumentErrorView};
use crate::error;
use crate::error::{EwfError, EwfErrorView, IoError};
use crate::ewf2::{Ewf2FileHeader, Ewf2SectionDescriptor};
use crate::image::EwfImage;
use crate::sections::SectionDescriptor;
use crate::types::{EwfMetadata, MetadataField, VerifyResult};

verus! {

/// Whether an optional string and an optional text are the same.
pub open spec fn reads(a: Option<String>, b: Option<Seq<char>>) -> bool {
    &&& a is Some <==> b is Some
    &&& a matches Some(s) ==> b == Some(s@)
}

/// Each field of metadata is seen under its own name.
pub proof fn law_metadata(m: EwfMetadata)
    ensures
        reads(m.case_number, m@.get(MetadataField::CaseNumber)),
        reads(m.evidence_number, m@.get(MetadataField::EvidenceNumber)),
        reads(m.description, m@.get(MetadataField::Description)),
        reads(m.examiner, m@.get(MetadataField::Examiner)),
        reads(m.notes, m@.get(MetadataField::Notes)),
        reads(m.acquiry_software, m@.get(MetadataField::AcquirySoftware)),
        reads(m.os_version, m@.get(MetadataField::OsVersion)),
        reads(m.acquiry_date, m@.get(MetadataField::AcquiryDate)),
        reads(m.system_date, m@.get(MetadataField::SystemDate)),
{
}

/// Each part of an image is seen under its own name.
pub proof fn law_image(i: EwfImage)
    ensures
        i@.chunk_size == i.chunk_size,
        i@.total_size == i.total_size,
        i@.chunks == i.chunks@,
        i.hashes.md5 is Some <==> i@.md5 is Some,
        i.hashes.md5 matches Some(h) ==> i@.md5 == Some(h@),
        i.hashes.sha1 is Some <==> i@.sha1 is Some,
        i.hashes.sha1 matches Some(h) ==> i@.sha1 == Some(h@),
        i@.metadata == i.metadata@,
        i@.header2 == i.header2@,
        i@.acquisition_errors == i.acquisition_errors@,
{
}

/// Each error is seen as what it is, with the numbers and texts that it has.
pub proof fn law_errors(e: EwfError, io: IoError)
    ensures
        io@.kind == io.kind,
        io@.message == io.message@,
        match e {
            EwfError::Io(x) => e@ matches EwfErrorView::Io(y) && y.kind == x.kind && y.message
                == x.message@,
            EwfError::InvalidSignature => e@ is InvalidSignature,
            EwfError::BufferTooShort { expected: x, got: y } => e@ matches EwfErrorView::BufferTooShort {
                expected,
                got,
            } && expected == x && got == y,
            EwfError::InvalidChunkSize(x) => e@ matches EwfErrorView::InvalidChunkSize(y) && y == x,
            EwfError::MissingVolume => e@ is MissingVolume,
            EwfError::Decompression(x) => e@ matches EwfErrorView::Decompression(y) && y == x@,
            EwfError::SegmentGap { expected: x, got: y } => e@ matches EwfErrorView::SegmentGap {
                expected,
                got,
            } && expected == x && got == y,
            EwfError::NoSegments(x) => e@ matches EwfErrorView::NoSegments(y) && y == x@,
            EwfError::Parse(x) => e@ matches EwfErrorView::Parse(y) && y == x@,
            EwfError::EncryptedNotSupported => e@ is EncryptedNotSupported,
        },
{
}

/// A result is seen by its value or its error.
pub proof fn law_results<T: View>(r: Result<T, EwfError>, n: Result<usize, IoError>)
    ensures
        r matches Ok(v) ==> error::viewed(r) == Ok::<T::V, EwfErrorView>(v@),
        r matches Err(e) ==> error::viewed(r) == Err::<T::V, EwfErrorView>(e@),
        n matches Ok(v) ==> error::io_viewed(n) == Ok::<usize, error::IoErrorView>(v),
        n matches Err(e) ==> error::io_viewed(n) == Err::<usize, error::IoErrorView>(e@),
{
}

/// Each part of a descriptor or header is seen under its own name.
pub proof fn law_structures(a: SectionDescriptor, b: Ewf2SectionDescriptor, c: Ewf2FileHeader)
    ensures
        a@.section_type == a.section_type@,
        a@.next == a.next,
        a@.section_size == a.section_size,
        a@.offset == a.offset,
        b@.section_type == b.section_type,
        b@.data_flags == b.data_flags,
        b@.previous_offset == b.previous_offset,
        b@.data_size == b.data_size,
        b@.descriptor_size == b.descriptor_size,
        b@.padding_size == b.padding_size,
        b@.data_integrity_hash == b.data_integrity_hash@,
        b@.offset == b.offset,
        c@.is_physical == c.is_physical,
        c@.major_version == c.major_version,
        c@.minor_version == c.minor_version,
        c@.compression_method == c.compression_method,
        c@.segment_number == c.segment_number,
        c@.set_identifier == c.set_identifier@,
{
}

/// Each part of the result of a check is seen under its own name.
pub proof fn law_check_results(v: VerifyResult)
    ensures
        v@.computed_md5 == v.computed_md5@,
        v.computed_sha1 is Some <==> v@.computed_sha1 is Some,
        v.computed_sha1 matches Some(h) ==> v@.computed_sha1 == Some(h@),
        v@.md5_match == v.md5_match,
        v@.sha1_match == v.sha1_match,
{
}

/// Each part of what is found out about a volume is seen under its own name.
pub proof fn law_inspections(
    i: BitLockerInspection,
    m: BitLockerEncryptionMethod,
    f: MetadataFields,
    o: MetadataOutcome,
    e: BitLockerDecryptError,
)
    ensures
        i@.variant == i.variant,
        i@.metadata_state == i.metadata_state,
        i.encryption_method is Some <==> i@.encryption_method is Some,
        i.encryption_method matches Some(x) ==> i@.encryption_method == Some(x@),
        i@.metadata_offsets == i.metadata_offsets@,
        i@.encrypted_volume_size == i.encrypted_volume_size,
        i@.volume_header_offset == i.volume_header_offset,
        i@.volume_header_size == i.volume_header_size,
        i@.protectors == i.protectors@,
        i@.unlock_state == i.unlock_state,
        m@.raw == m.raw,
        m@.description == m.description@,
        m@.decrypt_supported == m.decrypt_supported,
        f@.encryption_method == f.encryption_method,
        f@.metadata_offsets == f.metadata_offsets@,
        f@.encrypted_volume_size == f.encrypted_volume_size,
        f@.volume_header_offset == f.volume_header_offset,
        f@.volume_header_size == f.volume_header_size,
        f@.protectors == f.protectors@,
        match o {
            MetadataOutcome::Parsed(x) => o@ matches MetadataOutcomeView::Parsed(y) && y == x@,
            MetadataOutcome::NoValidMetadata => o@ is NoValidMetadata,
            MetadataOutcome::Failed(x) => o@ matches MetadataOutcomeView::Failed(y) && y == x@,
        },
        match e {
            BitLockerDecryptError::Io(x) => e@ matches BitLockerDecryptErrorView::Io(y) && y == x@,
            BitLockerDecryptError::Bde(x) => e@ matches BitLockerDecryptErrorView::Bde(y) && y
                == x@,
            BitLockerDecryptError::InvalidRecoveryKey(x) => {
                e@ matches BitLockerDecryptErrorView::InvalidRecoveryKey(y) && y == x
            },
        },
{
}

/// Each argument error is seen as what it is, with the texts that it has.
pub proof fn law_argument_errors(e: ArgumentError)
    ensures
        match e {
            ArgumentError::NotJson { field: x, cause: y } => e@ matches ArgumentErrorView::NotJson {
                field,
                cause,
            } && field == x@ && cause == y@,
            ArgumentError::NotObject { field: x } => e@ matches ArgumentErrorView::NotObject {
                field,
            } && field == x@,
            ArgumentError::Conflict { field: x } => e@ matches ArgumentErrorView::Conflict {
                field,
            } && field == x@,
        },
{
}

} // verus!
