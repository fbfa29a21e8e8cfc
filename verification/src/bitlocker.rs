//! Looking at BitLocker volumes: what they are, how they are protected, and
//! whether a recovery key is well formed.

use bitlocker::{BdeError, BdeVariant, BitLockerVolume, VolumeHeader};
use vstd::prelude::*;
use crate::bytes;
use crate::bytes::holds_at;
use crate::error::{IoError, IoErrorView};
use crate::page;
use crate::text;
use crate::text::{chars_of, split_chars};

verus! {

/// Bytes in one sector of a BitLocker volume.
pub const BITLOCKER_SECTOR_SIZE: u64 = 512;

/// Signature of a fixed BitLocker volume: `-FVE-FS-`.
pub const SIG_FVE: [u8; 8] = [0x2d, 0x46, 0x56, 0x45, 0x2d, 0x46, 0x53, 0x2d];

/// Signature of a BitLocker To Go volume: `MSWIN4.1`.
pub const SIG_TO_GO: [u8; 8] = [0x4d, 0x53, 0x57, 0x49, 0x4e, 0x34, 0x2e, 0x31];

pub const PROTECTOR_CLEAR_KEY: u16 = 0x0000;

pub const PROTECTOR_TPM: u16 = 0x0100;

pub const PROTECTOR_STARTUP_KEY: u16 = 0x0200;

pub const PROTECTOR_TPM_AND_PIN: u16 = 0x0500;

pub const PROTECTOR_RECOVERY_PASSWORD: u16 = 0x0800;

pub const PROTECTOR_PASSWORD: u16 = 0x2000;

/// What is wrong with the form of a recovery key.
#[derive(Debug, Clone, Copy, PartialEq, Eq, Structural)]
pub enum RecoveryKeyFormatError {
    WrongGroupCount,
    BadGroupDigits,
    BadChecksum,
    GroupOutOfRange,
}

impl RecoveryKeyFormatError {
    /// The error as a line of text.
    pub open spec fn spec_message(self) -> Seq<char> {
        match self {
            RecoveryKeyFormatError::WrongGroupCount => "recovery key must be exactly 8 groups"@,
            RecoveryKeyFormatError::BadGroupDigits => {
                "each recovery key group must be 6 decimal digits"@
            },
            RecoveryKeyFormatError::BadChecksum => {
                "recovery key group failed the divisible-by-11 checksum"@
            },
            RecoveryKeyFormatError::GroupOutOfRange => "recovery key group is out of range"@,
        }
    }

    /// The error as a line of text.
    pub fn message(&self) -> (r: &'static str)
        ensures
            r@ == self.spec_message(),
    {
        match self {
            RecoveryKeyFormatError::WrongGroupCount => "recovery key must be exactly 8 groups",
            RecoveryKeyFormatError::BadGroupDigits => {
                "each recovery key group must be 6 decimal digits"
            },
            RecoveryKeyFormatError::BadChecksum => {
                "recovery key group failed the divisible-by-11 checksum"
            },
            RecoveryKeyFormatError::GroupOutOfRange => "recovery key group is out of range",
        }
    }
}

/// The error type of the BitLocker functions.
#[derive(Debug, PartialEq, Eq)]
pub enum BitLockerDecryptError {
    /// The volume could not be read.
    Io(IoError),
    /// The volume could not be understood or unlocked.
    Bde(String),
    /// The recovery key is not well formed.
    InvalidRecoveryKey(RecoveryKeyFormatError),
}

/// A [`BitLockerDecryptError`] with its messages as sequences of characters.
#[verifier::ext_equal]
pub enum BitLockerDecryptErrorView {
    Io(IoErrorView),
    Bde(Seq<char>),
    InvalidRecoveryKey(RecoveryKeyFormatError),
}

impl View for BitLockerDecryptError {
    type V = BitLockerDecryptErrorView;

    open spec fn view(&self) -> BitLockerDecryptErrorView {
        match *self {
            BitLockerDecryptError::Io(e) => BitLockerDecryptErrorView::Io(e@),
            BitLockerDecryptError::Bde(m) => BitLockerDecryptErrorView::Bde(m@),
            BitLockerDecryptError::InvalidRecoveryKey(e) => {
                BitLockerDecryptErrorView::InvalidRecoveryKey(e)
            },
        }
    }
}

impl BitLockerDecryptErrorView {
    /// The error as a line of text.
    pub open spec fn message(self) -> Seq<char> {
        match self {
            BitLockerDecryptErrorView::Io(e) => "i/o error reading BitLocker volume: "@ + e.message,
            BitLockerDecryptErrorView::Bde(m) => m,
            BitLockerDecryptErrorView::InvalidRecoveryKey(e) => {
                "invalid BitLocker recovery key: "@ + e.spec_message()
            },
        }
    }
}

impl BitLockerDecryptError {
    /// The error as a line of text.
    pub fn message(&self) -> (r: String)
        ensures
            r@ == self@.message(),
    {
        match self {
            BitLockerDecryptError::Io(e) => {
                let mut m: String = "i/o error reading BitLocker volume: ".to_owned();
                m.append(e.message.as_str());
                m
            },
            BitLockerDecryptError::Bde(m) => m.clone(),
            BitLockerDecryptError::InvalidRecoveryKey(e) => {
                let mut m: String = "invalid BitLocker recovery key: ".to_owned();
                m.append(e.message());
                m
            },
        }
    }
}

/// What is wrong with one group of a recovery key: it is six decimal digits,
/// which write eleven times a 16-bit number.
pub open spec fn group_fault(group: Seq<char>) -> Option<RecoveryKeyFormatError> {
    if group.len() != 6 || !text::all_digits(group) {
        Some(RecoveryKeyFormatError::BadGroupDigits)
    } else if text::decimal_value(group) % 11 != 0 {
        Some(RecoveryKeyFormatError::BadChecksum)
    } else if text::decimal_value(group) / 11 > 0xffff {
        Some(RecoveryKeyFormatError::GroupOutOfRange)
    } else {
        None
    }
}

/// What is wrong first with the groups of a recovery key, from group `i` on.
/// There are eight of them.
pub open spec fn groups_fault(groups: Seq<Seq<char>>, i: int) -> Option<RecoveryKeyFormatError>
    decreases groups.len() - i,
{
    if i < 0 || i >= groups.len() {
        if groups.len() == 8 {
            None
        } else {
            Some(RecoveryKeyFormatError::WrongGroupCount)
        }
    } else if i >= 8 {
        Some(RecoveryKeyFormatError::WrongGroupCount)
    } else {
        match group_fault(groups[i]) {
            Some(e) => Some(e),
            None => groups_fault(groups, i + 1),
        }
    }
}

/// What is wrong with the form of a recovery key.
pub open spec fn recovery_key_fault(key: Seq<char>) -> Option<RecoveryKeyFormatError> {
    groups_fault(text::split(key, '-'), 0)
}

fn check_group(group: &Vec<char>) -> (r: Option<RecoveryKeyFormatError>)
    ensures
        r == group_fault(group@),
{
    if group.len() != 6 {
        return Some(RecoveryKeyFormatError::BadGroupDigits);
    }
    let mut value: u32 = 0;
    let mut i: usize = 0;
    let mut bound: u32 = 1;
    assert(group@.take(0) =~= Seq::<char>::empty());
    while i < 6
        invariant
            i <= 6,
            group@.len() == 6,
            forall|k: int| 0 <= k < i ==> text::is_digit(#[trigger] group@[k]),
            value == text::decimal_value(group@.take(i as int)),
            value < bound,
            bound == if i == 0 { 1u32 } else if i == 1 { 10 } else if i == 2 { 100 } else if i == 3 {
                1000
            } else if i == 4 { 10000 } else if i == 5 { 100000 } else { 1000000 },
        decreases 6 - i,
    {
        let c: char = group[i];
        if c < '0' || c > '9' {
            assert(!text::is_digit(group@[i as int]) && !text::all_digits(group@));
            return Some(RecoveryKeyFormatError::BadGroupDigits);
        }
        assert(group@.take(i + 1).drop_last() =~= group@.take(i as int));
        value = 10 * value + (c as u32 - 48);
        bound = 10 * bound;
        i += 1;
    }
    assert(group@.take(6) =~= group@);
    if value % 11 != 0 {
        Some(RecoveryKeyFormatError::BadChecksum)
    } else if value / 11 > 0xffff {
        Some(RecoveryKeyFormatError::GroupOutOfRange)
    } else {
        None
    }
}

/// Checks the form of a recovery key: eight groups of six digits, separated by
/// dashes, each divisible by eleven and no more than eleven times 65535.
pub fn validate_recovery_key_format(recovery_key: &str) -> (r: Result<(), RecoveryKeyFormatError>)
    ensures
        match r {
            Ok(_) => recovery_key_fault(recovery_key@) is None,
            Err(e) => recovery_key_fault(recovery_key@) == Some(e),
        },
{
    let groups: Vec<Vec<char>> = split_chars(&chars_of(recovery_key), '-');
    let ghost texts = text::pieces(groups@);
    let mut i: usize = 0;
    while i < groups.len()
        invariant
            i <= groups@.len(),
            texts == text::pieces(groups@),
            recovery_key_fault(recovery_key@) == groups_fault(texts, i as int),
        decreases groups@.len() - i,
    {
        if i >= 8 {
            return Err(RecoveryKeyFormatError::WrongGroupCount);
        }
        assert(texts[i as int] == groups@[i as int]@);
        match check_group(&groups[i]) {
            Some(e) => {
                return Err(e);
            },
            None => {},
        }
        i += 1;
    }
    if groups.len() != 8 {
        return Err(RecoveryKeyFormatError::WrongGroupCount);
    }
    Ok(())
}

/// What a volume is unlocked with.
pub enum BitLockerCredential {
    Password(String),
    RecoveryKey(String),
}

impl BitLockerCredential {
    /// A password.
    pub fn password(password: String) -> (r: BitLockerCredential)
        ensures
            r == BitLockerCredential::Password(password),
    {
        BitLockerCredential::Password(password)
    }

    /// A recovery key, which has to be well formed.
    pub fn recovery_key(recovery_key: String) -> (r: Result<
        BitLockerCredential,
        BitLockerDecryptError,
    >)
        ensures
            match r {
                Ok(c) => recovery_key_fault(recovery_key@) is None && c
                    == BitLockerCredential::RecoveryKey(recovery_key),
                Err(e) => recovery_key_fault(recovery_key@) matches Some(fault) && e@
                    == BitLockerDecryptErrorView::InvalidRecoveryKey(fault),
            },
    {
        match validate_recovery_key_format(recovery_key.as_str()) {
            Ok(_) => Ok(BitLockerCredential::RecoveryKey(recovery_key)),
            Err(e) => Err(BitLockerDecryptError::InvalidRecoveryKey(e)),
        }
    }

    /// The kind of credential, without the secret.
    pub fn redacted(&self) -> (r: &'static str)
        ensures
            r@ == match *self {
                BitLockerCredential::Password(_) => "BitLockerCredential::Password(<redacted>)"@,
                BitLockerCredential::RecoveryKey(_) => {
                    "BitLockerCredential::RecoveryKey(<redacted>)"@
                },
            },
    {
        match self {
            BitLockerCredential::Password(_) => "BitLockerCredential::Password(<redacted>)",
            BitLockerCredential::RecoveryKey(_) => "BitLockerCredential::RecoveryKey(<redacted>)",
        }
    }
}

/// The layouts of a BitLocker volume header.
#[derive(Debug, Clone, Copy, PartialEq, Eq, Structural)]
pub enum BitLockerVariant {
    WindowsVista,
    Windows7OrLater,
    BitLockerToGo,
}

/// How much of a volume was understood.
#[derive(Debug, Clone, Copy, PartialEq, Eq, Structural)]
pub enum BitLockerMetadataState {
    Parsed,
    HeaderOnly,
}

/// How a volume is encrypted.
#[derive(Debug, Clone, Copy, PartialEq, Eq)]
pub struct BitLockerEncryptionMethod {
    pub raw: u16,
    pub description: &'static str,
    pub decrypt_supported: bool,
}

/// A [`BitLockerEncryptionMethod`] with its description as a sequence.
#[verifier::ext_equal]
pub struct BitLockerEncryptionMethodView {
    pub raw: u16,
    pub description: Seq<char>,
    pub decrypt_supported: bool,
}

impl View for BitLockerEncryptionMethod {
    type V = BitLockerEncryptionMethodView;

    open spec fn view(&self) -> BitLockerEncryptionMethodView {
        BitLockerEncryptionMethodView {
            raw: self.raw,
            description: self.description@,
            decrypt_supported: self.decrypt_supported,
        }
    }
}

/// The kinds of key protectors.
#[derive(Debug, Clone, Copy, PartialEq, Eq, Structural)]
pub enum BitLockerProtectorKind {
    ClearKey,
    Tpm,
    StartupKey,
    TpmAndPin,
    RecoveryPassword,
    Password,
    Unknown,
}

impl BitLockerProtectorKind {
    /// A name for the kind of protector.
    pub open spec fn spec_label(self) -> Seq<char> {
        match self {
            BitLockerProtectorKind::ClearKey => "clear key"@,
            BitLockerProtectorKind::Tpm => "TPM"@,
            BitLockerProtectorKind::StartupKey => "startup key"@,
            BitLockerProtectorKind::TpmAndPin => "TPM and PIN"@,
            BitLockerProtectorKind::RecoveryPassword => "recovery password"@,
            BitLockerProtectorKind::Password => "password"@,
            BitLockerProtectorKind::Unknown => "unknown"@,
        }
    }

    /// A name for the kind of protector.
    pub fn label(self) -> (r: &'static str)
        ensures
            r@ == self.spec_label(),
    {
        match self {
            BitLockerProtectorKind::ClearKey => "clear key",
            BitLockerProtectorKind::Tpm => "TPM",
            BitLockerProtectorKind::StartupKey => "startup key",
            BitLockerProtectorKind::TpmAndPin => "TPM and PIN",
            BitLockerProtectorKind::RecoveryPassword => "recovery password",
            BitLockerProtectorKind::Password => "password",
            BitLockerProtectorKind::Unknown => "unknown",
        }
    }

    /// Whether the protector needs the TPM of the machine.
    pub open spec fn tpm_backed(self) -> bool {
        self == BitLockerProtectorKind::Tpm || self == BitLockerProtectorKind::TpmAndPin
    }

    /// Whether the protector needs the TPM of the machine.
    pub fn is_tpm_backed(self) -> (r: bool)
        ensures
            r == self.tpm_backed(),
    {
        matches!(self, BitLockerProtectorKind::Tpm | BitLockerProtectorKind::TpmAndPin)
    }
}

/// A key protector of a volume.
#[derive(Debug, Clone, Copy, PartialEq, Eq, Structural)]
pub struct BitLockerKeyProtector {
    pub raw: u16,
    pub kind: BitLockerProtectorKind,
}

/// Whether and how a volume can be unlocked.
#[derive(Debug, Clone, Copy, PartialEq, Eq, Structural)]
pub enum BitLockerUnlockState {
    CredentialRequired,
    CannotDecryptWithoutRecoveryKeyOrPassword,
    MetadataUnavailable,
    UnsupportedProtector,
}

impl BitLockerUnlockState {
    /// The state as a line of text.
    pub open spec fn message(self) -> Seq<char> {
        match self {
            BitLockerUnlockState::CredentialRequired => {
                "BitLocker volume detected; recovery key or password is required to decrypt"@
            },
            BitLockerUnlockState::CannotDecryptWithoutRecoveryKeyOrPassword => {
                "BitLocker volume detected; cannot decrypt without recovery key/password"@
            },
            BitLockerUnlockState::MetadataUnavailable => {
                "BitLocker header detected but FVE metadata could not be parsed"@
            },
            BitLockerUnlockState::UnsupportedProtector => {
                "BitLocker volume detected; no recovery-key/password protector is available"@
            },
        }
    }
}

/// The kind of protector with the number `raw`.
pub open spec fn kind_of(raw: u16) -> BitLockerProtectorKind {
    if raw == PROTECTOR_CLEAR_KEY {
        BitLockerProtectorKind::ClearKey
    } else if raw == PROTECTOR_TPM {
        BitLockerProtectorKind::Tpm
    } else if raw == PROTECTOR_STARTUP_KEY {
        BitLockerProtectorKind::StartupKey
    } else if raw == PROTECTOR_TPM_AND_PIN {
        BitLockerProtectorKind::TpmAndPin
    } else if raw == PROTECTOR_RECOVERY_PASSWORD {
        BitLockerProtectorKind::RecoveryPassword
    } else if raw == PROTECTOR_PASSWORD {
        BitLockerProtectorKind::Password
    } else {
        BitLockerProtectorKind::Unknown
    }
}

/// Reads a protector number.
pub fn protector_kind(raw: u16) -> (r: BitLockerProtectorKind)
    ensures
        r == kind_of(raw),
{
    if raw == PROTECTOR_CLEAR_KEY {
        BitLockerProtectorKind::ClearKey
    } else if raw == PROTECTOR_TPM {
        BitLockerProtectorKind::Tpm
    } else if raw == PROTECTOR_STARTUP_KEY {
        BitLockerProtectorKind::StartupKey
    } else if raw == PROTECTOR_TPM_AND_PIN {
        BitLockerProtectorKind::TpmAndPin
    } else if raw == PROTECTOR_RECOVERY_PASSWORD {
        BitLockerProtectorKind::RecoveryPassword
    } else if raw == PROTECTOR_PASSWORD {
        BitLockerProtectorKind::Password
    } else {
        BitLockerProtectorKind::Unknown
    }
}

/// The encryption method with the number `raw`. Only methods without
/// encryption, or with a 128-bit key in CBC mode, can be decrypted.
pub open spec fn method_of(raw: u16) -> BitLockerEncryptionMethodView {
    BitLockerEncryptionMethodView {
        raw,
        description: if raw == 0x0000 {
            "not encrypted"@
        } else if raw == 0x8000 {
            "AES-128-CBC + Elephant diffuser"@
        } else if raw == 0x8001 {
            "AES-256-CBC + Elephant diffuser"@
        } else if raw == 0x8002 {
            "AES-128-CBC"@
        } else if raw == 0x8003 {
            "AES-256-CBC"@
        } else if raw == 0x8004 {
            "XTS-AES-128"@
        } else if raw == 0x8005 {
            "XTS-AES-256"@
        } else {
            "unknown BitLocker encryption method"@
        },
        decrypt_supported: raw == 0x0000 || raw == 0x8000 || raw == 0x8002,
    }
}

/// Reads an encryption method number.
pub fn encryption_method(raw: u16) -> (r: BitLockerEncryptionMethod)
    ensures
        r@ == method_of(raw),
{
    let (description, decrypt_supported): (&'static str, bool) = match raw {
        0x0000 => ("not encrypted", true),
        0x8000 => ("AES-128-CBC + Elephant diffuser", true),
        0x8001 => ("AES-256-CBC + Elephant diffuser", false),
        0x8002 => ("AES-128-CBC", true),
        0x8003 => ("AES-256-CBC", false),
        0x8004 => ("XTS-AES-128", false),
        0x8005 => ("XTS-AES-256", false),
        _ => ("unknown BitLocker encryption method", false),
    };
    BitLockerEncryptionMethod { raw, description, decrypt_supported }
}

/// The first byte of the sector that a byte lies in.
pub fn bitlocker_sector_start(byte_offset: u64) -> (r: u64)
    ensures
        r == byte_offset - byte_offset % BITLOCKER_SECTOR_SIZE,
{
    byte_offset - (byte_offset % BITLOCKER_SECTOR_SIZE)
}

/// The number of the sector that a byte lies in, which is its XTS tweak.
pub fn bitlocker_xts_tweak_value(byte_offset: u64) -> (r: u128)
    ensures
        r == byte_offset / BITLOCKER_SECTOR_SIZE,
{
    (byte_offset / BITLOCKER_SECTOR_SIZE) as u128
}

/// What the library uses of a volume header.
#[derive(Debug, Clone, Copy, PartialEq, Eq)]
pub struct VolumeHeaderFields {
    pub variant: BitLockerVariant,
    pub metadata_offsets: [u64; 3],
}

/// [`VolumeHeaderFields`] over sequences.
#[verifier::ext_equal]
pub struct VolumeHeaderView {
    pub variant: BitLockerVariant,
    pub metadata_offsets: Seq<u64>,
}

/// The fields of an optional header.
pub open spec fn header_view(h: Option<VolumeHeaderFields>) -> Option<VolumeHeaderView> {
    match h {
        Some(f) => Some(
            VolumeHeaderView { variant: f.variant, metadata_offsets: f.metadata_offsets@ },
        ),
        None => None,
    }
}

/// The signature field of a sector.
pub open spec fn signature(sector: Seq<u8>) -> Seq<u8> {
    sector.subrange(3, 11)
}

/// `value`, or the largest 64-bit number if it is larger.
pub open spec fn capped(value: int) -> u64 {
    if value <= u64::MAX {
        value as u64
    } else {
        u64::MAX
    }
}

/// What the first sector says as a BitLocker volume header, if it is one. The
/// oldest layout names the first metadata block by its cluster.
pub open spec fn volume_header(sector: Seq<u8>) -> Option<VolumeHeaderView> {
    if signature(sector) == SIG_TO_GO@ {
        Some(
            VolumeHeaderView {
                variant: BitLockerVariant::BitLockerToGo,
                metadata_offsets: seq![
                    bytes::le64(sector, 440) as u64,
                    bytes::le64(sector, 448) as u64,
                    bytes::le64(sector, 456) as u64,
                ],
            },
        )
    } else if signature(sector) != SIG_FVE@ {
        None
    } else if sector.take(3) == seq![0xebu8, 0x58u8, 0x90u8] {
        Some(
            VolumeHeaderView {
                variant: BitLockerVariant::Windows7OrLater,
                metadata_offsets: seq![
                    bytes::le64(sector, 176) as u64,
                    bytes::le64(sector, 184) as u64,
                    bytes::le64(sector, 192) as u64,
                ],
            },
        )
    } else {
        let bytes_per_sector = if bytes::le16(sector, 11) == 0 {
            512
        } else {
            bytes::le16(sector, 11)
        };
        let sectors_per_cluster = if sector[13] == 0 {
            1
        } else {
            sector[13] as int
        };
        Some(
            VolumeHeaderView {
                variant: BitLockerVariant::WindowsVista,
                metadata_offsets: seq![
                    capped(bytes::le64(sector, 56) * (bytes_per_sector * sectors_per_cluster)),
                    0u64,
                    0u64,
                ],
            },
        )
    }
}

/// `bitlocker::VolumeHeader::parse` tells the layout of the first sector by
/// its signature and boot entry, and reads the offsets of the metadata blocks.
/// It fails only on a sector with neither signature.
#[verifier::external_body]
fn parse_volume_header(sector: &[u8]) -> (r: Option<VolumeHeaderFields>)
    requires
        sector@.len() == 512,
    ensures
        header_view(r) == volume_header(sector@),
{
    let header = VolumeHeader::parse(sector).ok()?;
    let variant = match header.variant {
        BdeVariant::WindowsVista => BitLockerVariant::WindowsVista,
        BdeVariant::Windows7OrLater => BitLockerVariant::Windows7OrLater,
        BdeVariant::BitLockerToGo => BitLockerVariant::BitLockerToGo,
    };
    Some(VolumeHeaderFields { variant, metadata_offsets: header.fve_metadata_offsets })
}

/// What the library uses of the metadata of a volume.
#[derive(Debug, PartialEq, Eq)]
pub struct MetadataFields {
    pub encryption_method: u16,
    pub metadata_offsets: [u64; 3],
    pub encrypted_volume_size: u64,
    pub volume_header_offset: u64,
    pub volume_header_size: u64,
    /// The numbers of the key protectors, in the order of the metadata.
    pub protectors: Vec<u16>,
}

/// [`MetadataFields`] over sequences.
#[verifier::ext_equal]
pub struct MetadataFieldsView {
    pub encryption_method: u16,
    pub metadata_offsets: Seq<u64>,
    pub encrypted_volume_size: u64,
    pub volume_header_offset: u64,
    pub volume_header_size: u64,
    pub protectors: Seq<u16>,
}

impl View for MetadataFields {
    type V = MetadataFieldsView;

    open spec fn view(&self) -> MetadataFieldsView {
        MetadataFieldsView {
            encryption_method: self.encryption_method,
            metadata_offsets: self.metadata_offsets@,
            encrypted_volume_size: self.encrypted_volume_size,
            volume_header_offset: self.volume_header_offset,
            volume_header_size: self.volume_header_size,
            protectors: self.protectors@,
        }
    }
}

/// What reading the metadata of a volume came to.
#[derive(Debug, PartialEq, Eq)]
pub enum MetadataOutcome {
    Parsed(MetadataFields),
    /// None of the places that the header names holds metadata.
    NoValidMetadata,
    /// The metadata could not be read.
    Failed(String),
}

/// A [`MetadataOutcome`] over sequences.
#[verifier::ext_equal]
pub enum MetadataOutcomeView {
    Parsed(MetadataFieldsView),
    NoValidMetadata,
    Failed(Seq<char>),
}

impl View for MetadataOutcome {
    type V = MetadataOutcomeView;

    open spec fn view(&self) -> MetadataOutcomeView {
        match *self {
            MetadataOutcome::Parsed(m) => MetadataOutcomeView::Parsed(m@),
            MetadataOutcome::NoValidMetadata => MetadataOutcomeView::NoValidMetadata,
            MetadataOutcome::Failed(m) => MetadataOutcomeView::Failed(m@),
        }
    }
}

/// What `bitlocker::BitLockerVolume::read_metadata` finds in a volume.
pub uninterp spec fn volume_metadata(volume: Seq<u8>) -> MetadataOutcomeView;

/// `bitlocker::BitLockerVolume::read_metadata` on a volume that is held in
/// memory: the first of the metadata blocks named by the header that carries
/// the signature, with its protectors listed by `protector_types`. The name
/// stands for what it finds.
#[verifier::external_body]
fn read_volume_metadata(volume: &[u8]) -> (r: MetadataOutcome)
    ensures
        r@ == volume_metadata(volume@),
{
    match BitLockerVolume::read_metadata(&mut std::io::Cursor::new(volume)) {
        Ok(m) => MetadataOutcome::Parsed(MetadataFields {
            encryption_method: m.encryption_method,
            metadata_offsets: m.metadata_offsets,
            encrypted_volume_size: m.encrypted_volume_size,
            volume_header_offset: m.volume_header_offset,
            volume_header_size: m.volume_header_size,
            protectors: m.protector_types(),
        }),
        Err(BdeError::NoValidMetadata { .. }) => MetadataOutcome::NoValidMetadata,
        Err(e) => MetadataOutcome::Failed(e.to_string()),
    }
}

/// What was found out about a BitLocker volume.
#[derive(Debug, PartialEq, Eq)]
pub struct BitLockerInspection {
    pub variant: BitLockerVariant,
    pub metadata_state: BitLockerMetadataState,
    pub encryption_method: Option<BitLockerEncryptionMethod>,
    pub metadata_offsets: [u64; 3],
    pub encrypted_volume_size: Option<u64>,
    pub volume_header_offset: Option<u64>,
    pub volume_header_size: Option<u64>,
    pub protectors: Vec<BitLockerKeyProtector>,
    pub unlock_state: BitLockerUnlockState,
}

/// A [`BitLockerInspection`] over sequences.
#[verifier::ext_equal]
pub struct BitLockerInspectionView {
    pub variant: BitLockerVariant,
    pub metadata_state: BitLockerMetadataState,
    pub encryption_method: Option<BitLockerEncryptionMethodView>,
    pub metadata_offsets: Seq<u64>,
    pub encrypted_volume_size: Option<u64>,
    pub volume_header_offset: Option<u64>,
    pub volume_header_size: Option<u64>,
    pub protectors: Seq<BitLockerKeyProtector>,
    pub unlock_state: BitLockerUnlockState,
}

impl View for BitLockerInspection {
    type V = BitLockerInspectionView;

    open spec fn view(&self) -> BitLockerInspectionView {
        BitLockerInspectionView {
            variant: self.variant,
            metadata_state: self.metadata_state,
            encryption_method: match self.encryption_method {
                Some(m) => Some(m@),
                None => None,
            },
            metadata_offsets: self.metadata_offsets@,
            encrypted_volume_size: self.encrypted_volume_size,
            volume_header_offset: self.volume_header_offset,
            volume_header_size: self.volume_header_size,
            protectors: self.protectors@,
            unlock_state: self.unlock_state,
        }
    }
}

/// Whether one of the protectors is of the kind.
pub open spec fn has_kind(
    protectors: Seq<BitLockerKeyProtector>,
    kind: BitLockerProtectorKind,
) -> bool {
    exists|i: int| 0 <= i < protectors.len() && (#[trigger] protectors[i]).kind == kind
}

/// Whether there are protectors and all of them need the TPM.
pub open spec fn only_tpm(protectors: Seq<BitLockerKeyProtector>) -> bool {
    protectors.len() > 0 && forall|i: int|
        0 <= i < protectors.len() ==> (#[trigger] protectors[i]).kind.tpm_backed()
}

fn find_kind(protectors: &Vec<BitLockerKeyProtector>, kind: BitLockerProtectorKind) -> (r: bool)
    ensures
        r == has_kind(protectors@, kind),
{
    let mut i: usize = 0;
    while i < protectors.len()
        invariant
            i <= protectors@.len(),
            forall|k: int| 0 <= k < i ==> (#[trigger] protectors@[k]).kind != kind,
        decreases protectors@.len() - i,
    {
        if protectors[i].kind == kind {
            return true;
        }
        i += 1;
    }
    false
}

fn check_only_tpm(protectors: &Vec<BitLockerKeyProtector>) -> (r: bool)
    ensures
        r == only_tpm(protectors@),
{
    let mut i: usize = 0;
    while i < protectors.len()
        invariant
            i <= protectors@.len(),
            forall|k: int| 0 <= k < i ==> (#[trigger] protectors@[k]).kind.tpm_backed(),
        decreases protectors@.len() - i,
    {
        if !protectors[i].kind.is_tpm_backed() {
            return false;
        }
        i += 1;
    }
    protectors.len() > 0
}

/// How a volume with these protectors can be unlocked.
pub open spec fn unlock_state_of(protectors: Seq<BitLockerKeyProtector>) -> BitLockerUnlockState {
    if has_kind(protectors, BitLockerProtectorKind::RecoveryPassword) || has_kind(
        protectors,
        BitLockerProtectorKind::Password,
    ) {
        BitLockerUnlockState::CredentialRequired
    } else if only_tpm(protectors) {
        BitLockerUnlockState::CannotDecryptWithoutRecoveryKeyOrPassword
    } else {
        BitLockerUnlockState::UnsupportedProtector
    }
}

/// The protectors with these numbers.
pub open spec fn protectors_of(raw: Seq<u16>) -> Seq<BitLockerKeyProtector> {
    Seq::new(raw.len(), |i: int| BitLockerKeyProtector { raw: raw[i], kind: kind_of(raw[i]) })
}

impl BitLockerInspectionView {
    /// What a header and, if there is any, metadata say.
    pub open spec fn of(
        header: VolumeHeaderView,
        metadata: Option<MetadataFieldsView>,
    ) -> BitLockerInspectionView {
        match metadata {
            None => BitLockerInspectionView {
                variant: header.variant,
                metadata_state: BitLockerMetadataState::HeaderOnly,
                encryption_method: None,
                metadata_offsets: header.metadata_offsets,
                encrypted_volume_size: None,
                volume_header_offset: None,
                volume_header_size: None,
                protectors: Seq::empty(),
                unlock_state: BitLockerUnlockState::MetadataUnavailable,
            },
            Some(m) => BitLockerInspectionView {
                variant: header.variant,
                metadata_state: BitLockerMetadataState::Parsed,
                encryption_method: Some(method_of(m.encryption_method)),
                metadata_offsets: m.metadata_offsets,
                encrypted_volume_size: Some(m.encrypted_volume_size),
                volume_header_offset: Some(m.volume_header_offset),
                volume_header_size: Some(m.volume_header_size),
                protectors: protectors_of(m.protectors),
                unlock_state: unlock_state_of(protectors_of(m.protectors)),
            },
        }
    }
}

/// The metadata in an optional value.
pub open spec fn metadata_view(m: Option<MetadataFields>) -> Option<MetadataFieldsView> {
    match m {
        Some(f) => Some(f@),
        None => None,
    }
}

impl BitLockerInspection {
    /// Describes a volume by its header and, if there is any, its metadata.
    pub fn from_header_and_metadata(
        header: &VolumeHeaderFields,
        metadata: Option<MetadataFields>,
    ) -> (r: BitLockerInspection)
        ensures
            r@ == BitLockerInspectionView::of(
                VolumeHeaderView {
                    variant: header.variant,
                    metadata_offsets: header.metadata_offsets@,
                },
                metadata_view(metadata),
            ),
    {
        let metadata: MetadataFields = match metadata {
            Some(metadata) => metadata,
            None => {
                let protectors: Vec<BitLockerKeyProtector> = Vec::new();
                return BitLockerInspection {
                    variant: header.variant,
                    metadata_state: BitLockerMetadataState::HeaderOnly,
                    encryption_method: None,
                    metadata_offsets: header.metadata_offsets,
                    encrypted_volume_size: None,
                    volume_header_offset: None,
                    volume_header_size: None,
                    protectors,
                    unlock_state: BitLockerUnlockState::MetadataUnavailable,
                };
            },
        };
        let mut protectors: Vec<BitLockerKeyProtector> = Vec::new();
        let mut i: usize = 0;
        while i < metadata.protectors.len()
            invariant
                i <= metadata.protectors@.len(),
                protectors@ == protectors_of(metadata.protectors@.take(i as int)),
            decreases metadata.protectors@.len() - i,
        {
            let raw: u16 = metadata.protectors[i];
            protectors.push(BitLockerKeyProtector { raw, kind: protector_kind(raw) });
            i += 1;
            assert(protectors@ =~= protectors_of(metadata.protectors@.take(i as int)));
        }
        assert(metadata.protectors@.take(i as int) =~= metadata.protectors@);
        let unlock_state: BitLockerUnlockState = if find_kind(
            &protectors,
            BitLockerProtectorKind::RecoveryPassword,
        ) || find_kind(&protectors, BitLockerProtectorKind::Password) {
            BitLockerUnlockState::CredentialRequired
        } else if check_only_tpm(&protectors) {
            BitLockerUnlockState::CannotDecryptWithoutRecoveryKeyOrPassword
        } else {
            BitLockerUnlockState::UnsupportedProtector
        };
        BitLockerInspection {
            variant: header.variant,
            metadata_state: BitLockerMetadataState::Parsed,
            encryption_method: Some(encryption_method(metadata.encryption_method)),
            metadata_offsets: metadata.metadata_offsets,
            encrypted_volume_size: Some(metadata.encrypted_volume_size),
            volume_header_offset: Some(metadata.volume_header_offset),
            volume_header_size: Some(metadata.volume_header_size),
            protectors,
            unlock_state,
        }
    }

    /// Whether a recovery key can unlock the volume.
    pub fn can_unlock_with_recovery_key(&self) -> (r: bool)
        ensures
            r == has_kind(self.protectors@, BitLockerProtectorKind::RecoveryPassword),
    {
        find_kind(&self.protectors, BitLockerProtectorKind::RecoveryPassword)
    }

    /// Whether a password can unlock the volume.
    pub fn can_unlock_with_password(&self) -> (r: bool)
        ensures
            r == has_kind(self.protectors@, BitLockerProtectorKind::Password),
    {
        find_kind(&self.protectors, BitLockerProtectorKind::Password)
    }

    /// Whether nothing but the TPM can unlock the volume.
    pub fn is_tpm_only(&self) -> (r: bool)
        ensures
            r == only_tpm(self.protectors@),
    {
        !self.can_unlock_with_recovery_key() && !self.can_unlock_with_password() && check_only_tpm(
            &self.protectors,
        )
    }

    /// A line of text about how the volume can be unlocked.
    pub fn status_message(&self) -> (r: &'static str)
        ensures
            r@ == self.unlock_state.message(),
    {
        match self.unlock_state {
            BitLockerUnlockState::CredentialRequired => {
                "BitLocker volume detected; recovery key or password is required to decrypt"
            },
            BitLockerUnlockState::CannotDecryptWithoutRecoveryKeyOrPassword => {
                "BitLocker volume detected; cannot decrypt without recovery key/password"
            },
            BitLockerUnlockState::MetadataUnavailable => {
                "BitLocker header detected but FVE metadata could not be parsed"
            },
            BitLockerUnlockState::UnsupportedProtector => {
                "BitLocker volume detected; no recovery-key/password protector is available"
            },
        }
    }
}

/// The first sector of a volume that starts with `first`, padded with zeros.
pub open spec fn first_sector(first: Seq<u8>) -> Seq<u8> {
    page::padded(first, 512)
}

/// What looking at a volume gives. `first` is what it has of its first sector,
/// and `metadata` what reading its metadata came to. A volume that only bears
/// the To Go signature is not taken for one without metadata.
pub open spec fn inspected(first: Seq<u8>, metadata: MetadataOutcomeView) -> Result<
    Option<BitLockerInspectionView>,
    BitLockerDecryptErrorView,
> {
    if first.len() < 11 {
        Ok(None)
    } else {
        match volume_header(first_sector(first)) {
            None => Ok(None),
            Some(header) => match metadata {
                MetadataOutcomeView::Parsed(m) => Ok(
                    Some(BitLockerInspectionView::of(header, Some(m))),
                ),
                MetadataOutcomeView::NoValidMetadata => if signature(first_sector(first))
                    == SIG_FVE@ {
                    Ok(Some(BitLockerInspectionView::of(header, None)))
                } else {
                    Ok(None)
                },
                MetadataOutcomeView::Failed(m) => Err(BitLockerDecryptErrorView::Bde(m)),
            },
        }
    }
}

/// The result of an inspection, over sequences.
pub open spec fn inspection_view(
    r: Result<Option<BitLockerInspection>, BitLockerDecryptError>,
) -> Result<Option<BitLockerInspectionView>, BitLockerDecryptErrorView> {
    match r {
        Ok(Some(i)) => Ok(Some(i@)),
        Ok(None) => Ok(None),
        Err(e) => Err(e@),
    }
}

/// The header of a volume that starts with `first`, with the sector it is in.
fn read_header(first: &Vec<u8>) -> (r: (Option<VolumeHeaderFields>, Vec<u8>))
    requires
        11 <= first@.len() <= 512,
    ensures
        r.1@ == first_sector(first@),
        header_view(r.0) == volume_header(first_sector(first@)),
{
    let mut sector: Vec<u8> = first.clone();
    assert(sector@ =~= first@);
    sector.resize(512, 0);
    assert(sector@ =~= first_sector(first@));
    (parse_volume_header(sector.as_slice()), sector)
}

/// Whether a volume that starts with `first` bears a BitLocker signature, so
/// that its metadata is worth reading.
pub fn has_header(first: &Vec<u8>) -> (r: bool)
    requires
        first@.len() <= 512,
    ensures
        r == (first@.len() >= 11 && volume_header(first_sector(first@)) is Some),
{
    first.len() >= 11 && read_header(first).0.is_some()
}

/// Describes a volume by what it has of its first sector and what reading its
/// metadata came to.
pub fn inspect_with_metadata(first: &Vec<u8>, metadata: MetadataOutcome) -> (r: Result<
    Option<BitLockerInspection>,
    BitLockerDecryptError,
>)
    requires
        first@.len() <= 512,
    ensures
        inspection_view(r) == inspected(first@, metadata@),
{
    if first.len() < 11 {
        return Ok(None);
    }
    let (header, sector) = read_header(first);
    let header: VolumeHeaderFields = match header {
        Some(header) => header,
        None => {
            return Ok(None);
        },
    };
    match metadata {
        MetadataOutcome::Parsed(fields) => Ok(
            Some(BitLockerInspection::from_header_and_metadata(&header, Some(fields))),
        ),
        MetadataOutcome::NoValidMetadata => if holds_at(
            sector.as_slice(),
            3,
            SIG_FVE.as_slice(),
        ) {
            Ok(Some(BitLockerInspection::from_header_and_metadata(&header, None)))
        } else {
            Ok(None)
        },
        MetadataOutcome::Failed(message) => Err(BitLockerDecryptError::Bde(message)),
    }
}

/// Looks at a volume. `first` is what it has of its first sector;
/// `read_metadata` reads its metadata, and is called only if the sector bears a
/// BitLocker signature.
pub fn inspect_reader<M: FnOnce() -> MetadataOutcome>(first: &Vec<u8>, read_metadata: M) -> (r:
    Result<Option<BitLockerInspection>, BitLockerDecryptError>)
    requires
        first@.len() <= 512,
        call_requires(read_metadata, ()),
    ensures
        first@.len() < 11 || volume_header(first_sector(first@)) is None ==> inspection_view(r)
            == Ok::<Option<BitLockerInspectionView>, BitLockerDecryptErrorView>(None),
        first@.len() >= 11 && volume_header(first_sector(first@)) is Some ==> exists|
            metadata: MetadataOutcome,
        |
            call_ensures(read_metadata, (), metadata) && #[trigger] inspected(first@, metadata@)
                == inspection_view(r),
{
    if has_header(first) {
        let metadata: MetadataOutcome = read_metadata();
        inspect_with_metadata(first, metadata)
    } else {
        Ok(None)
    }
}

/// Looks at a volume that is held in memory.
pub fn inspect_volume(volume: &[u8]) -> (r: Result<
    Option<BitLockerInspection>,
    BitLockerDecryptError,
>)
    ensures
        inspection_view(r) == inspected(
            volume@.take(if volume@.len() < 512 { volume@.len() as int } else { 512 }),
            volume_metadata(volume@),
        ),
{
    let n: usize = if volume.len() < 512 {
        volume.len()
    } else {
        512
    };
    let mut first: Vec<u8> = Vec::new();
    first.extend_from_slice(vstd::slice::slice_subrange(volume, 0, n));
    assert(first@ =~= volume@.take(n as int));
    if has_header(&first) {
        inspect_with_metadata(&first, read_volume_metadata(volume))
    } else {
        Ok(None)
    }
}

/// The groups of the recovery key that stands for `words`.
pub open spec fn key_groups(words: Seq<u16>) -> Seq<Seq<char>> {
    Seq::new(words.len(), |i: int| text::fixed_digits((11 * words[i]) as nat, 6))
}

/// The recovery key that stands for `words`.
pub open spec fn key_text(words: Seq<u16>) -> Seq<char> {
    text::join(key_groups(words), '-')
}

proof fn lemma_group(word: u16)
    ensures
        group_fault(text::fixed_digits((11 * word) as nat, 6)) is None,
        !text::fixed_digits((11 * word) as nat, 6).contains('-'),
{
    reveal_with_fuel(text::power_of_ten, 7);
    text::lemma_fixed_digits((11 * word) as nat, 6);
    let g = text::fixed_digits((11 * word) as nat, 6);
    if g.contains('-') {
        let i = choose|i: int| 0 <= i < g.len() && g[i] == '-';
        assert(text::is_digit(g[i]));
    }
}

/// Every recovery key is accepted: eight 16-bit numbers, each written as six
/// digits of eleven times the number, joined by dashes.
pub proof fn law_every_key_is_accepted(words: Seq<u16>)
    requires
        words.len() == 8,
    ensures
        recovery_key_fault(key_text(words)) is None,
{
    let groups = key_groups(words);
    assert forall|i: int| 0 <= i < groups.len() implies !(#[trigger] groups[i]).contains('-')
        && group_fault(groups[i]) is None by {
        lemma_group(words[i]);
    }
    text::law_split_undoes_join(groups, '-');
    lemma_groups_accepted(groups, 0);
}

proof fn lemma_groups_accepted(groups: Seq<Seq<char>>, i: int)
    requires
        groups.len() == 8,
        0 <= i <= 8,
        forall|k: int| 0 <= k < groups.len() ==> group_fault(#[trigger] groups[k]) is None,
    ensures
        groups_fault(groups, i) is None,
    decreases 8 - i,
{
    if i < 8 {
        lemma_groups_accepted(groups, i + 1);
    }
}

proof fn lemma_accepted_groups(groups: Seq<Seq<char>>, i: int)
    requires
        0 <= i <= groups.len(),
        groups_fault(groups, i) is None,
    ensures
        groups.len() == 8,
        forall|k: int| i <= k < groups.len() ==> group_fault(#[trigger] groups[k]) is None,
    decreases groups.len() - i,
{
    if i < groups.len() {
        lemma_accepted_groups(groups, i + 1);
    }
}

/// Nothing else is accepted: whatever has the form of a recovery key stands
/// for eight 16-bit numbers.
pub proof fn law_only_keys_are_accepted(key: Seq<char>)
    requires
        recovery_key_fault(key) is None,
    ensures
        exists|words: Seq<u16>| words.len() == 8 && #[trigger] key_text(words) == key,
{
    let groups = text::split(key, '-');
    text::lemma_split_nonempty(key, '-');
    lemma_accepted_groups(groups, 0);
    let words = Seq::new(8, |i: int| (text::decimal_value(groups[i]) / 11) as u16);
    assert forall|i: int| 0 <= i < 8 implies #[trigger] key_groups(words)[i] == groups[i] by {
        assert(group_fault(groups[i]) is None);
        text::lemma_fixed_digits_back(groups[i]);
        assert(11 * words[i] == text::decimal_value(groups[i]));
    }
    assert(key_groups(words) =~= groups);
    text::law_join_undoes_split(key, '-');
    assert(key_text(words) == key);
}

/// What is said of unlocking a volume agrees with its protectors: a credential
/// is asked for exactly where a recovery key or a password can unlock it, and
/// it is given up exactly where nothing but the TPM can.
pub proof fn law_unlock_state_agrees(
    header: VolumeHeaderView,
    metadata: Option<MetadataFieldsView>,
)
    ensures
        ({
            let info = BitLockerInspectionView::of(header, metadata);
            &&& info.unlock_state == BitLockerUnlockState::CredentialRequired <==> (has_kind(
                info.protectors,
                BitLockerProtectorKind::RecoveryPassword,
            ) || has_kind(info.protectors, BitLockerProtectorKind::Password))
            &&& info.unlock_state
                == BitLockerUnlockState::CannotDecryptWithoutRecoveryKeyOrPassword <==> only_tpm(
                info.protectors,
            )
            &&& info.unlock_state == BitLockerUnlockState::MetadataUnavailable
                <==> info.metadata_state == BitLockerMetadataState::HeaderOnly
            &&& info.metadata_state == BitLockerMetadataState::HeaderOnly <==> metadata is None
        }),
{
    let info = BitLockerInspectionView::of(header, metadata);
    if only_tpm(info.protectors) {
        assert(info.protectors[0].kind.tpm_backed());
        assert(!has_kind(info.protectors, BitLockerProtectorKind::RecoveryPassword));
        assert(!has_kind(info.protectors, BitLockerProtectorKind::Password));
    }
}

/// A To Go signature alone is never reported as a BitLocker volume, and a
/// fixed volume always is, with or without metadata.
pub proof fn law_signature_decides_without_metadata(first: Seq<u8>)
    requires
        11 <= first.len() <= 512,
    ensures
        signature(first_sector(first)) == SIG_TO_GO@ ==> inspected(
            first,
            MetadataOutcomeView::NoValidMetadata,
        ) == Ok::<Option<BitLockerInspectionView>, BitLockerDecryptErrorView>(None),
        signature(first_sector(first)) == SIG_FVE@ ==> (inspected(
            first,
            MetadataOutcomeView::NoValidMetadata,
        ) matches Ok(Some(info)) && info.metadata_state == BitLockerMetadataState::HeaderOnly),
{
    assert(SIG_TO_GO@[0] != SIG_FVE@[0]);
}

/// The sector that a byte lies in starts at its number times the sector size,
/// and the byte lies in it.
pub proof fn law_sector_start_and_tweak(byte_offset: u64)
    ensures
        byte_offset - byte_offset % BITLOCKER_SECTOR_SIZE == (byte_offset / BITLOCKER_SECTOR_SIZE)
            * BITLOCKER_SECTOR_SIZE,
        byte_offset - byte_offset % BITLOCKER_SECTOR_SIZE <= byte_offset < byte_offset - byte_offset
            % BITLOCKER_SECTOR_SIZE + BITLOCKER_SECTOR_SIZE,
{
}

} // verus!
