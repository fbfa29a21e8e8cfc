//! What an image says about itself: hashes, case metadata, bad sectors.

use vstd::prelude::*;

verus! {

/// Integrity hashes stored within the image by the acquisition tool.
///
/// The `hash` section stores an MD5 of the acquired media, the `digest` section
/// both MD5 and SHA-1.
#[derive(Debug, Clone, Copy, PartialEq, Eq)]
pub struct StoredHashes {
    /// MD5 hash of the acquired media (from the `hash` or `digest` section).
    pub md5: Option<[u8; 16]>,
    /// SHA-1 hash of the acquired media (from the `digest` section only).
    pub sha1: Option<[u8; 20]>,
}

/// Result of checking an image by recomputing the hashes of its media.
#[derive(Debug, Clone, Copy, PartialEq, Eq)]
pub struct VerifyResult {
    /// Computed MD5 of the full media stream.
    pub computed_md5: [u8; 16],
    /// Computed SHA-1 of the full media stream (only if a stored SHA-1 exists).
    pub computed_sha1: Option<[u8; 20]>,
    /// Whether the computed MD5 is the stored one; `None` without a stored one.
    pub md5_match: Option<bool>,
    /// Whether the computed SHA-1 is the stored one; `None` without a stored one.
    pub sha1_match: Option<bool>,
}

/// A range of sectors that had read errors during acquisition.
#[derive(Debug, Clone, Copy, PartialEq, Eq, Structural)]
pub struct AcquisitionError {
    /// First sector in the error range.
    pub first_sector: u32,
    /// Number of consecutive sectors in the error range.
    pub sector_count: u32,
}

/// Case and acquisition metadata.
///
/// In version 1 it comes from the `header` section (ASCII) and the `header2`
/// section (UTF-16LE), in version 2 from the case data. A field is `None` when
/// the acquisition tool left it blank.
#[derive(Debug, PartialEq, Eq)]
pub struct EwfMetadata {
    pub case_number: Option<String>,
    pub evidence_number: Option<String>,
    pub description: Option<String>,
    pub examiner: Option<String>,
    pub notes: Option<String>,
    pub acquiry_software: Option<String>,
    pub os_version: Option<String>,
    pub acquiry_date: Option<String>,
    pub system_date: Option<String>,
}

/// Names one field of [`EwfMetadata`].
#[derive(Debug, Clone, Copy, PartialEq, Eq, Structural)]
pub enum MetadataField {
    CaseNumber,
    EvidenceNumber,
    Description,
    Examiner,
    Notes,
    AcquirySoftware,
    OsVersion,
    AcquiryDate,
    SystemDate,
}

/// [`EwfMetadata`] with its texts as sequences of characters.
#[verifier::ext_equal]
pub struct EwfMetadataView {
    pub case_number: Option<Seq<char>>,
    pub evidence_number: Option<Seq<char>>,
    pub description: Option<Seq<char>>,
    pub examiner: Option<Seq<char>>,
    pub notes: Option<Seq<char>>,
    pub acquiry_software: Option<Seq<char>>,
    pub os_version: Option<Seq<char>>,
    pub acquiry_date: Option<Seq<char>>,
    pub system_date: Option<Seq<char>>,
}

/// The characters of an optional text.
pub open spec fn text_of(o: Option<String>) -> Option<Seq<char>> {
    match o {
        Some(s) => Some(s@),
        None => None,
    }
}

/// `a`, or `b` where `a` is blank.
pub open spec fn known(a: Option<Seq<char>>, b: Option<Seq<char>>) -> Option<Seq<char>> {
    if a is Some {
        a
    } else {
        b
    }
}

fn take_known(a: Option<String>, b: Option<String>) -> (r: Option<String>)
    ensures
        text_of(r) == known(text_of(a), text_of(b)),
{
    match a {
        Some(s) => Some(s),
        None => b,
    }
}

impl View for EwfMetadata {
    type V = EwfMetadataView;

    open spec fn view(&self) -> EwfMetadataView {
        EwfMetadataView {
            case_number: text_of(self.case_number),
            evidence_number: text_of(self.evidence_number),
            description: text_of(self.description),
            examiner: text_of(self.examiner),
            notes: text_of(self.notes),
            acquiry_software: text_of(self.acquiry_software),
            os_version: text_of(self.os_version),
            acquiry_date: text_of(self.acquiry_date),
            system_date: text_of(self.system_date),
        }
    }
}

impl EwfMetadataView {
    /// No field filled in.
    pub open spec fn blank() -> EwfMetadataView {
        EwfMetadataView {
            case_number: None,
            evidence_number: None,
            description: None,
            examiner: None,
            notes: None,
            acquiry_software: None,
            os_version: None,
            acquiry_date: None,
            system_date: None,
        }
    }

    /// The same metadata with one field filled in.
    pub open spec fn with(self, field: MetadataField, value: Seq<char>) -> EwfMetadataView {
        match field {
            MetadataField::CaseNumber => EwfMetadataView { case_number: Some(value), ..self },
            MetadataField::EvidenceNumber => EwfMetadataView {
                evidence_number: Some(value),
                ..self
            },
            MetadataField::Description => EwfMetadataView { description: Some(value), ..self },
            MetadataField::Examiner => EwfMetadataView { examiner: Some(value), ..self },
            MetadataField::Notes => EwfMetadataView { notes: Some(value), ..self },
            MetadataField::AcquirySoftware => EwfMetadataView {
                acquiry_software: Some(value),
                ..self
            },
            MetadataField::OsVersion => EwfMetadataView { os_version: Some(value), ..self },
            MetadataField::AcquiryDate => EwfMetadataView { acquiry_date: Some(value), ..self },
            MetadataField::SystemDate => EwfMetadataView { system_date: Some(value), ..self },
        }
    }

    /// The same metadata with the blank fields taken from `other`.
    pub open spec fn completed_by(self, other: EwfMetadataView) -> EwfMetadataView {
        EwfMetadataView {
            case_number: known(self.case_number, other.case_number),
            evidence_number: known(self.evidence_number, other.evidence_number),
            description: known(self.description, other.description),
            examiner: known(self.examiner, other.examiner),
            notes: known(self.notes, other.notes),
            acquiry_software: known(self.acquiry_software, other.acquiry_software),
            os_version: known(self.os_version, other.os_version),
            acquiry_date: known(self.acquiry_date, other.acquiry_date),
            system_date: known(self.system_date, other.system_date),
        }
    }

    /// What one field holds.
    pub open spec fn get(self, field: MetadataField) -> Option<Seq<char>> {
        match field {
            MetadataField::CaseNumber => self.case_number,
            MetadataField::EvidenceNumber => self.evidence_number,
            MetadataField::Description => self.description,
            MetadataField::Examiner => self.examiner,
            MetadataField::Notes => self.notes,
            MetadataField::AcquirySoftware => self.acquiry_software,
            MetadataField::OsVersion => self.os_version,
            MetadataField::AcquiryDate => self.acquiry_date,
            MetadataField::SystemDate => self.system_date,
        }
    }
}

impl Default for EwfMetadata {
    fn default() -> (r: EwfMetadata)
        ensures
            r@ == EwfMetadataView::blank(),
    {
        EwfMetadata {
            case_number: None,
            evidence_number: None,
            description: None,
            examiner: None,
            notes: None,
            acquiry_software: None,
            os_version: None,
            acquiry_date: None,
            system_date: None,
        }
    }
}

impl EwfMetadata {
    /// Takes the blank fields from `other`.
    pub fn complete_with(self, other: EwfMetadata) -> (r: EwfMetadata)
        ensures
            r@ == self@.completed_by(other@),
    {
        EwfMetadata {
            case_number: take_known(self.case_number, other.case_number),
            evidence_number: take_known(self.evidence_number, other.evidence_number),
            description: take_known(self.description, other.description),
            examiner: take_known(self.examiner, other.examiner),
            notes: take_known(self.notes, other.notes),
            acquiry_software: take_known(self.acquiry_software, other.acquiry_software),
            os_version: take_known(self.os_version, other.os_version),
            acquiry_date: take_known(self.acquiry_date, other.acquiry_date),
            system_date: take_known(self.system_date, other.system_date),
        }
    }

    /// Fills in one field.
    pub fn set(&mut self, field: MetadataField, value: String)
        ensures
            final(self)@ == old(self)@.with(field, value@),
    {
        match field {
            MetadataField::CaseNumber => {
                self.case_number = Some(value);
            },
            MetadataField::EvidenceNumber => {
                self.evidence_number = Some(value);
            },
            MetadataField::Description => {
                self.description = Some(value);
            },
            MetadataField::Examiner => {
                self.examiner = Some(value);
            },
            MetadataField::Notes => {
                self.notes = Some(value);
            },
            MetadataField::AcquirySoftware => {
                self.acquiry_software = Some(value);
            },
            MetadataField::OsVersion => {
                self.os_version = Some(value);
            },
            MetadataField::AcquiryDate => {
                self.acquiry_date = Some(value);
            },
            MetadataField::SystemDate => {
                self.system_date = Some(value);
            },
        }
    }
}

} // verus!
