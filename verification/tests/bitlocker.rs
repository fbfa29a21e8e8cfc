use std::io::Cursor;

use bitlocker::{BdeError, BitLockerVolume};
use kdft::bitlocker::{
    bitlocker_sector_start, bitlocker_xts_tweak_value, encryption_method, inspect_reader,
    inspect_volume, inspect_with_metadata, protector_kind, validate_recovery_key_format,
    BitLockerCredential, BitLockerDecryptError, BitLockerEncryptionMethod, BitLockerInspection,
    BitLockerMetadataState, BitLockerProtectorKind, BitLockerUnlockState, BitLockerVariant,
    MetadataFields, MetadataOutcome, RecoveryKeyFormatError, BITLOCKER_SECTOR_SIZE,
    PROTECTOR_PASSWORD, PROTECTOR_RECOVERY_PASSWORD, PROTECTOR_TPM, PROTECTOR_TPM_AND_PIN,
    SIG_FVE, SIG_TO_GO,
};

const META_BLOCK_OFFSET: u64 = 0x1000;

fn synthetic_recovery_key(words: [u16; 8]) -> String {
    words
        .iter()
        .map(|word| format!("{:06}", u32::from(*word) * 11))
        .collect::<Vec<_>>()
        .join("-")
}

fn entry(entry_type: u16, value_type: u16, data: &[u8]) -> Vec<u8> {
    let size = (8 + data.len()) as u16;
    let mut out = Vec::with_capacity(usize::from(size));
    out.extend_from_slice(&size.to_le_bytes());
    out.extend_from_slice(&entry_type.to_le_bytes());
    out.extend_from_slice(&value_type.to_le_bytes());
    out.extend_from_slice(&1u16.to_le_bytes());
    out.extend_from_slice(data);
    out
}

fn metadata_image(method: u16, protectors: &[u16]) -> Vec<u8> {
    let mut entries = Vec::new();
    for protector in protectors {
        let mut data = vec![0u8; 28];
        data[26..28].copy_from_slice(&protector.to_le_bytes());
        entries.extend_from_slice(&entry(0x0002, 0x0008, &data));
    }
    let metadata_size = 48 + entries.len();
    let mut image = vec![0u8; 0x2000];
    image[0..3].copy_from_slice(&[0xeb, 0x58, 0x90]);
    image[3..11].copy_from_slice(&SIG_FVE);
    image[11..13].copy_from_slice(&512u16.to_le_bytes());
    image[176..184].copy_from_slice(&META_BLOCK_OFFSET.to_le_bytes());

    let mb = META_BLOCK_OFFSET as usize;
    image[mb..mb + 8].copy_from_slice(&SIG_FVE);
    image[mb + 32..mb + 40].copy_from_slice(&META_BLOCK_OFFSET.to_le_bytes());
    image[mb + 64..mb + 68].copy_from_slice(&(metadata_size as u32).to_le_bytes());
    image[mb + 64 + 36..mb + 64 + 38].copy_from_slice(&method.to_le_bytes());
    image[mb + 64 + 48..mb + 64 + 48 + entries.len()].copy_from_slice(&entries);
    image
}

fn read_outcome(image: &[u8]) -> MetadataOutcome {
    match BitLockerVolume::read_metadata(&mut Cursor::new(image)) {
        Ok(m) => MetadataOutcome::Parsed(MetadataFields {
            encryption_method: m.encryption_method,
            metadata_offsets: m.metadata_offsets,
            encrypted_volume_size: m.encrypted_volume_size,
            volume_header_offset: m.volume_header_offset,
            volume_header_size: m.volume_header_size,
            protectors: m.protector_types(),
        }),
        Err(BdeError::NoValidMetadata { .. }) => MetadataOutcome::NoValidMetadata,
        Err(e) => MetadataOutcome::Failed(e.to_string()),
    }
}

fn inspect(image: &[u8]) -> Result<Option<BitLockerInspection>, BitLockerDecryptError> {
    let first = image[..image.len().min(512)].to_vec();
    let by_reader = inspect_reader(&first, || read_outcome(image));
    assert_eq!(by_reader, inspect_volume(image));
    by_reader
}

#[test]
fn recovery_key_format_accepts_generated_valid_key() {
    let key = synthetic_recovery_key([0, 1, 2, 3, 4, 5, 1024, u16::MAX]);
    validate_recovery_key_format(&key).unwrap();
    assert!(matches!(
        BitLockerCredential::recovery_key(key).unwrap(),
        BitLockerCredential::RecoveryKey(_)
    ));
}

#[test]
fn recovery_key_format_rejects_malformed_values() {
    assert_eq!(
        validate_recovery_key_format("not-a-recovery-key").unwrap_err(),
        RecoveryKeyFormatError::BadGroupDigits
    );
    assert_eq!(
        validate_recovery_key_format("000000").unwrap_err(),
        RecoveryKeyFormatError::WrongGroupCount
    );
    let bad_checksum = synthetic_recovery_key([0, 1, 2, 3, 4, 5, 6, 7]).replacen('0', "1", 1);
    assert_eq!(
        validate_recovery_key_format(&bad_checksum).unwrap_err(),
        RecoveryKeyFormatError::BadChecksum
    );
    let out_of_range = [
        "720896", "000000", "000000", "000000", "000000", "000000", "000000", "000000",
    ]
    .join("-");
    assert_eq!(
        validate_recovery_key_format(&out_of_range).unwrap_err(),
        RecoveryKeyFormatError::GroupOutOfRange
    );
}

#[test]
fn recovery_key_with_nine_groups_is_refused() {
    let key = synthetic_recovery_key([1; 8]) + "-000011";
    assert_eq!(
        validate_recovery_key_format(&key).unwrap_err(),
        RecoveryKeyFormatError::WrongGroupCount
    );
    assert_eq!(
        validate_recovery_key_format("").unwrap_err(),
        RecoveryKeyFormatError::BadGroupDigits
    );
}

#[test]
fn refused_recovery_key_names_its_fault() {
    let error = BitLockerCredential::recovery_key("000001".to_string()).err().unwrap();
    assert_eq!(
        error,
        BitLockerDecryptError::InvalidRecoveryKey(RecoveryKeyFormatError::BadChecksum)
    );
    assert_eq!(
        error.message(),
        "invalid BitLocker recovery key: recovery key group failed the divisible-by-11 checksum"
    );
    assert_eq!(
        RecoveryKeyFormatError::WrongGroupCount.message(),
        "recovery key must be exactly 8 groups"
    );
    assert_eq!(
        RecoveryKeyFormatError::BadGroupDigits.message(),
        "each recovery key group must be 6 decimal digits"
    );
    assert_eq!(
        RecoveryKeyFormatError::GroupOutOfRange.message(),
        "recovery key group is out of range"
    );
}

#[test]
fn credentials_do_not_show_their_secret() {
    assert_eq!(
        BitLockerCredential::password("hunter2".to_string()).redacted(),
        "BitLockerCredential::Password(<redacted>)"
    );
    let key = synthetic_recovery_key([7; 8]);
    assert_eq!(
        BitLockerCredential::recovery_key(key).unwrap().redacted(),
        "BitLockerCredential::RecoveryKey(<redacted>)"
    );
}

#[test]
fn metadata_parsing_reports_recovery_password_and_password_protectors() {
    let image = metadata_image(0x8004, &[PROTECTOR_RECOVERY_PASSWORD, PROTECTOR_PASSWORD]);
    let info = inspect(&image).unwrap().unwrap();
    assert_eq!(info.variant, BitLockerVariant::Windows7OrLater);
    assert_eq!(info.metadata_state, BitLockerMetadataState::Parsed);
    assert_eq!(
        info.encryption_method,
        Some(BitLockerEncryptionMethod {
            raw: 0x8004,
            description: "XTS-AES-128",
            decrypt_supported: false,
        })
    );
    assert!(info.can_unlock_with_recovery_key());
    assert!(info.can_unlock_with_password());
    assert_eq!(info.unlock_state, BitLockerUnlockState::CredentialRequired);
    assert_eq!(
        info.protectors
            .iter()
            .map(|protector| protector.kind)
            .collect::<Vec<_>>(),
        vec![
            BitLockerProtectorKind::RecoveryPassword,
            BitLockerProtectorKind::Password
        ]
    );
}

#[test]
fn encryption_method_reports_only_wrapped_crate_decryptable_methods_as_supported() {
    assert!(encryption_method(0x0000).decrypt_supported);
    assert!(encryption_method(0x8000).decrypt_supported);
    assert!(encryption_method(0x8002).decrypt_supported);
    assert!(!encryption_method(0x8001).decrypt_supported);
    assert!(!encryption_method(0x8003).decrypt_supported);
    assert!(!encryption_method(0x8004).decrypt_supported);
    assert!(!encryption_method(0x8005).decrypt_supported);
}

#[test]
fn metadata_parsing_reports_tpm_only_as_not_decryptable() {
    let image = metadata_image(0x8002, &[PROTECTOR_TPM, PROTECTOR_TPM_AND_PIN]);
    let info = inspect(&image).unwrap().unwrap();
    assert!(info.is_tpm_only());
    assert_eq!(
        info.unlock_state,
        BitLockerUnlockState::CannotDecryptWithoutRecoveryKeyOrPassword
    );
    assert_eq!(
        info.status_message(),
        "BitLocker volume detected; cannot decrypt without recovery key/password"
    );
}

#[test]
fn bitlocker_to_go_signature_without_metadata_is_not_enough() {
    let mut image = vec![0u8; 512];
    image[0..3].copy_from_slice(&[0xeb, 0x58, 0x90]);
    image[3..11].copy_from_slice(&SIG_TO_GO);
    image[11..13].copy_from_slice(&512u16.to_le_bytes());
    assert!(inspect(&image).unwrap().is_none());
}

#[test]
fn fixed_fve_header_without_metadata_still_reports_header_only() {
    let mut image = vec![0u8; 512];
    image[0..3].copy_from_slice(&[0xeb, 0x58, 0x90]);
    image[3..11].copy_from_slice(&SIG_FVE);
    image[11..13].copy_from_slice(&512u16.to_le_bytes());
    let info = inspect(&image).unwrap().unwrap();
    assert_eq!(info.metadata_state, BitLockerMetadataState::HeaderOnly);
    assert_eq!(info.unlock_state, BitLockerUnlockState::MetadataUnavailable);
}

#[test]
fn sector_tweak_logic_uses_bitlocker_512_byte_sector_number() {
    assert_eq!(bitlocker_sector_start(0), 0);
    assert_eq!(bitlocker_sector_start(511), 0);
    assert_eq!(bitlocker_sector_start(512), 512);
    assert_eq!(bitlocker_sector_start(1025), 1024);

    assert_eq!(bitlocker_xts_tweak_value(0), 0);
    assert_eq!(bitlocker_xts_tweak_value(511), 0);
    assert_eq!(bitlocker_xts_tweak_value(512), 1);
    assert_eq!(bitlocker_xts_tweak_value(4096), 8);
    assert_eq!(
        bitlocker_xts_tweak_value(u64::MAX),
        u128::from(u64::MAX / BITLOCKER_SECTOR_SIZE)
    );
}

#[test]
fn sector_start_is_the_tweak_times_the_sector_size() {
    for offset in [0u64, 1, 511, 512, 513, 123_456_789, u64::MAX] {
        assert_eq!(
            u128::from(bitlocker_sector_start(offset)),
            bitlocker_xts_tweak_value(offset) * u128::from(BITLOCKER_SECTOR_SIZE)
        );
    }
}

#[test]
fn vista_header_names_the_first_block_by_cluster() {
    let mut image = vec![0u8; 512];
    image[0..3].copy_from_slice(&[0xeb, 0x52, 0x90]);
    image[3..11].copy_from_slice(&SIG_FVE);
    image[13] = 8;
    image[56..64].copy_from_slice(&100u64.to_le_bytes());
    let info = inspect(&image).unwrap().unwrap();
    assert_eq!(info.variant, BitLockerVariant::WindowsVista);
    assert_eq!(info.metadata_offsets, [100 * 512 * 8, 0, 0]);

    image[56..64].copy_from_slice(&u64::MAX.to_le_bytes());
    let info = inspect_with_metadata(&image, MetadataOutcome::NoValidMetadata)
        .unwrap()
        .unwrap();
    assert_eq!(info.metadata_offsets, [u64::MAX, 0, 0]);
}

#[test]
fn to_go_header_holds_three_offsets() {
    let mut image = vec![0u8; 512];
    image[3..11].copy_from_slice(&SIG_TO_GO);
    image[440..448].copy_from_slice(&0x0210_0000u64.to_le_bytes());
    image[448..456].copy_from_slice(&0x02b5_5800u64.to_le_bytes());
    image[456..464].copy_from_slice(&0x035a_b000u64.to_le_bytes());
    let fields = MetadataFields {
        encryption_method: 0x8000,
        metadata_offsets: [1, 2, 3],
        encrypted_volume_size: 4,
        volume_header_offset: 5,
        volume_header_size: 6,
        protectors: vec![0x0000, 0x0200, 0x1234],
    };
    let info = inspect_with_metadata(&image, MetadataOutcome::Parsed(fields))
        .unwrap()
        .unwrap();
    assert_eq!(info.variant, BitLockerVariant::BitLockerToGo);
    assert_eq!(info.metadata_offsets, [1, 2, 3]);
    assert_eq!(info.encrypted_volume_size, Some(4));
    assert_eq!(info.volume_header_offset, Some(5));
    assert_eq!(info.volume_header_size, Some(6));
    assert_eq!(info.unlock_state, BitLockerUnlockState::UnsupportedProtector);
    assert!(!info.is_tpm_only());
    assert_eq!(
        info.protectors.iter().map(|p| p.kind.label()).collect::<Vec<_>>(),
        vec!["clear key", "startup key", "unknown"]
    );
}

#[test]
fn other_volumes_and_failures() {
    assert!(inspect(&[0u8; 10]).unwrap().is_none());
    assert!(inspect(&[0u8; 512]).unwrap().is_none());
    let mut short = vec![0u8; 100];
    short[3..11].copy_from_slice(&SIG_FVE);
    assert!(matches!(inspect(&short), Err(BitLockerDecryptError::Bde(_))));
    let error = inspect_with_metadata(&short, MetadataOutcome::Failed("broken".to_string()));
    assert_eq!(error.unwrap_err().message(), "broken");
}

#[test]
fn protector_numbers_are_told_apart() {
    assert_eq!(protector_kind(0x0000), BitLockerProtectorKind::ClearKey);
    assert_eq!(protector_kind(0x0100), BitLockerProtectorKind::Tpm);
    assert_eq!(protector_kind(0x0200), BitLockerProtectorKind::StartupKey);
    assert_eq!(protector_kind(0x0500), BitLockerProtectorKind::TpmAndPin);
    assert_eq!(protector_kind(0x0800), BitLockerProtectorKind::RecoveryPassword);
    assert_eq!(protector_kind(0x2000), BitLockerProtectorKind::Password);
    assert_eq!(protector_kind(0x0001), BitLockerProtectorKind::Unknown);
}
