//! BitLocker volumes: what the numbers and bytes that are found in one mean for
//! unlocking it.

use vstd::prelude::*;
use crate::bitlocker;
use crate::bitlocker::{BitLockerDecryptErrorView, BitLockerInspectionView, BitLockerMetadataState,
    BitLockerProtectorKind, BitLockerUnlockState, BitLockerVariant, MetadataFieldsView,
    MetadataOutcomeView, RecoveryKeyFormatError, VolumeHeaderView};
use crate::bytes;
use crate::error::IoErrorView;
use crate::laws::numbers;
use crate::text;

verus! {

/// Which number stands for which kind of protector.
pub proof fn law_protector_numbers(raw: u16)
    ensures
        bitlocker::kind_of(raw) == BitLockerProtectorKind::ClearKey <==> raw == 0,
        bitlocker::kind_of(raw) == BitLockerProtectorKind::Tpm <==> raw == 0x0100,
        bitlocker::kind_of(raw) == BitLockerProtectorKind::StartupKey <==> raw == 0x0200,
        bitlocker::kind_of(raw) == BitLockerProtectorKind::TpmAndPin <==> raw == 0x0500,
        bitlocker::kind_of(raw) == BitLockerProtectorKind::RecoveryPassword <==> raw == 0x0800,
        bitlocker::kind_of(raw) == BitLockerProtectorKind::Password <==> raw == 0x2000,
        bitlocker::kind_of(raw).tpm_backed() <==> raw == 0x0100 || raw == 0x0500,
{
}

/// A protector that takes a credential is found wherever it stands in the
/// metadata and whatever the other protectors are: with the number 0x0800 a
/// recovery key can unlock the volume, with 0x2000 a password can, and with
/// either a credential is asked for.
pub proof fn law_credential_protectors_are_found(
    header: VolumeHeaderView,
    m: MetadataFieldsView,
    i: int,
)
    requires
        0 <= i < m.protectors.len(),
    ensures
        ({
            let info = BitLockerInspectionView::of(header, Some(m));
            &&& m.protectors[i] == 0x0800 ==> bitlocker::has_kind(
                info.protectors,
                BitLockerProtectorKind::RecoveryPassword,
            ) && info.unlock_state == BitLockerUnlockState::CredentialRequired
            &&& m.protectors[i] == 0x2000 ==> bitlocker::has_kind(
                info.protectors,
                BitLockerProtectorKind::Password,
            ) && info.unlock_state == BitLockerUnlockState::CredentialRequired
        }),
{
    let info = BitLockerInspectionView::of(header, Some(m));
    assert(info.protectors[i].raw == m.protectors[i]);
}

/// Whether a number is among those of the protectors.
pub open spec fn lists(protectors: Seq<u16>, raw: u16) -> bool {
    exists|i: int| 0 <= i < protectors.len() && #[trigger] protectors[i] == raw
}

/// Whether there are protectors, and none that the TPM does not back.
pub open spec fn needs_tpm(protectors: Seq<u16>) -> bool {
    protectors.len() > 0 && forall|i: int|
        0 <= i < protectors.len() ==> (#[trigger] protectors[i] == 0x0100 || protectors[i]
            == 0x0500)
}

/// What is said of unlocking a volume follows from the numbers of its
/// protectors alone, and each thing is said exactly where it holds.
pub proof fn law_unlocking_follows_the_numbers(header: VolumeHeaderView, m: MetadataFieldsView)
    ensures
        ({
            let info = BitLockerInspectionView::of(header, Some(m));
            let key = lists(m.protectors, 0x0800);
            let word = lists(m.protectors, 0x2000);
            let tpm = needs_tpm(m.protectors);
            &&& bitlocker::has_kind(info.protectors, BitLockerProtectorKind::RecoveryPassword)
                <==> key
            &&& bitlocker::has_kind(info.protectors, BitLockerProtectorKind::Password) <==> word
            &&& bitlocker::only_tpm(info.protectors) <==> tpm
            &&& info.unlock_state == BitLockerUnlockState::CredentialRequired <==> key || word
            &&& info.unlock_state
                == BitLockerUnlockState::CannotDecryptWithoutRecoveryKeyOrPassword <==> tpm
            &&& info.unlock_state == BitLockerUnlockState::UnsupportedProtector <==> !key && !word
                && !tpm
        }),
{
    let info = BitLockerInspectionView::of(header, Some(m));
    assert forall|i: int| 0 <= i < m.protectors.len() implies (
    #[trigger] info.protectors[i]).kind == bitlocker::kind_of(m.protectors[i]) by {}
    if lists(m.protectors, 0x0800) {
        let i = choose|i: int| 0 <= i < m.protectors.len() && #[trigger] m.protectors[i] == 0x0800;
        law_credential_protectors_are_found(header, m, i);
        assert(!needs_tpm(m.protectors));
    }
    if lists(m.protectors, 0x2000) {
        let i = choose|i: int| 0 <= i < m.protectors.len() && #[trigger] m.protectors[i] == 0x2000;
        law_credential_protectors_are_found(header, m, i);
        assert(!needs_tpm(m.protectors));
    }
    if bitlocker::has_kind(info.protectors, BitLockerProtectorKind::RecoveryPassword) {
        let i = choose|i: int|
            0 <= i < info.protectors.len() && (#[trigger] info.protectors[i]).kind
                == BitLockerProtectorKind::RecoveryPassword;
        assert(m.protectors[i] == 0x0800);
    }
    if bitlocker::has_kind(info.protectors, BitLockerProtectorKind::Password) {
        let i = choose|i: int|
            0 <= i < info.protectors.len() && (#[trigger] info.protectors[i]).kind
                == BitLockerProtectorKind::Password;
        assert(m.protectors[i] == 0x2000);
    }
    if needs_tpm(m.protectors) {
        assert forall|i: int| 0 <= i < info.protectors.len() implies (
        #[trigger] info.protectors[i]).kind.tpm_backed() by {
            assert(m.protectors[i] == 0x0100 || m.protectors[i] == 0x0500);
        }
    }
    if bitlocker::only_tpm(info.protectors) {
        assert forall|i: int| 0 <= i < m.protectors.len() implies (#[trigger] m.protectors[i]
            == 0x0100 || m.protectors[i] == 0x0500) by {
            assert(info.protectors[i].kind.tpm_backed());
        }
    }
}

/// An inspection hands on what the metadata says, each protector under its own
/// number, or without metadata what the header says.
pub proof fn law_inspection_hands_on(header: VolumeHeaderView, m: MetadataFieldsView)
    ensures
        ({
            let info = BitLockerInspectionView::of(header, Some(m));
            &&& info.variant == header.variant
            &&& info.metadata_state == BitLockerMetadataState::Parsed
            &&& info.metadata_offsets == m.metadata_offsets
            &&& info.encrypted_volume_size == Some(m.encrypted_volume_size)
            &&& info.volume_header_offset == Some(m.volume_header_offset)
            &&& info.volume_header_size == Some(m.volume_header_size)
            &&& info.encryption_method == Some(bitlocker::method_of(m.encryption_method))
            &&& info.protectors.len() == m.protectors.len()
            &&& forall|i: int|
                0 <= i < m.protectors.len() ==> (#[trigger] info.protectors[i]).raw
                    == m.protectors[i] && info.protectors[i].kind == bitlocker::kind_of(
                    m.protectors[i],
                )
        }),
        ({
            let info = BitLockerInspectionView::of(header, None);
            &&& info.variant == header.variant
            &&& info.metadata_state == BitLockerMetadataState::HeaderOnly
            &&& info.metadata_offsets == header.metadata_offsets
            &&& info.encrypted_volume_size is None
            &&& info.volume_header_offset is None
            &&& info.volume_header_size is None
            &&& info.encryption_method is None
            &&& info.protectors.len() == 0
            &&& info.unlock_state == BitLockerUnlockState::MetadataUnavailable
        }),
{
}

/// Which number stands for which encryption method, and that only data without
/// encryption or with a 128-bit key in CBC mode can be decrypted.
pub proof fn law_encryption_methods(raw: u16)
    ensures
        ({
            let method = bitlocker::method_of(raw);
            &&& method.raw == raw
            &&& method.decrypt_supported <==> raw == 0 || raw == 0x8000 || raw == 0x8002
            &&& raw == 0 ==> method.description == "not encrypted"@
            &&& raw == 0x8000 ==> method.description == "AES-128-CBC + Elephant diffuser"@
            &&& raw == 0x8001 ==> method.description == "AES-256-CBC + Elephant diffuser"@
            &&& raw == 0x8002 ==> method.description == "AES-128-CBC"@
            &&& raw == 0x8003 ==> method.description == "AES-256-CBC"@
            &&& raw == 0x8004 ==> method.description == "XTS-AES-128"@
            &&& raw == 0x8005 ==> method.description == "XTS-AES-256"@
            &&& raw != 0 && (raw < 0x8000 || raw > 0x8005) ==> method.description
                == "unknown BitLocker encryption method"@
        }),
{
}

/// Whether the sector bears the signature of a fixed volume.
pub open spec fn bears_fixed(sector: Seq<u8>) -> bool {
    sector.subrange(3, 11) == seq![0x2du8, 0x46, 0x56, 0x45, 0x2d, 0x46, 0x53, 0x2d]
}

/// Whether the sector bears the signature of a removable volume.
pub open spec fn bears_to_go(sector: Seq<u8>) -> bool {
    sector.subrange(3, 11) == seq![0x4du8, 0x53, 0x57, 0x49, 0x4e, 0x34, 0x2e, 0x31]
}

proof fn lemma_signatures(sector: Seq<u8>)
    ensures
        bears_fixed(sector) == (bitlocker::signature(sector) == bitlocker::SIG_FVE@),
        bears_to_go(sector) == (bitlocker::signature(sector) == bitlocker::SIG_TO_GO@),
        !(bears_fixed(sector) && bears_to_go(sector)),
{
    let fixed = seq![0x2du8, 0x46, 0x56, 0x45, 0x2d, 0x46, 0x53, 0x2d];
    let to_go = seq![0x4du8, 0x53, 0x57, 0x49, 0x4e, 0x34, 0x2e, 0x31];
    assert(fixed =~= bitlocker::SIG_FVE@);
    assert(to_go =~= bitlocker::SIG_TO_GO@);
    assert(fixed[0] != to_go[0]);
}

/// A volume header is told by its signature. Where its layout places the
/// metadata by byte offsets, those are given as they stand.
pub proof fn law_volume_headers(sector: Seq<u8>)
    requires
        sector.len() == 512,
    ensures
        ({
            let found = bitlocker::volume_header(sector);
            &&& found is Some <==> bears_fixed(sector) || bears_to_go(sector)
            &&& bears_to_go(sector) ==> (found matches Some(h) && {
                &&& h.variant == BitLockerVariant::BitLockerToGo
                &&& h.metadata_offsets.len() == 3
                &&& forall|i: int|
                    0 <= i < 3 ==> #[trigger] h.metadata_offsets[i] == bytes::le64(
                        sector,
                        440 + 8 * i,
                    )
            })
            &&& bears_fixed(sector) && sector[0] == 0xeb && sector[1] == 0x58 && sector[2] == 0x90
                ==> (found matches Some(h) && {
                &&& h.variant == BitLockerVariant::Windows7OrLater
                &&& h.metadata_offsets.len() == 3
                &&& forall|i: int|
                    0 <= i < 3 ==> #[trigger] h.metadata_offsets[i] == bytes::le64(
                        sector,
                        176 + 8 * i,
                    )
            })
            &&& bears_fixed(sector) && !(sector[0] == 0xeb && sector[1] == 0x58 && sector[2]
                == 0x90) ==> (found matches Some(h) && {
                let sector_size = if bytes::le16(sector, 11) == 0 {
                    512
                } else {
                    bytes::le16(sector, 11)
                };
                let sectors = if sector[13] == 0 {
                    1
                } else {
                    sector[13] as int
                };
                let place = bytes::le64(sector, 56) * (sector_size * sectors);
                &&& h.variant == BitLockerVariant::WindowsVista
                &&& h.metadata_offsets.len() == 3
                &&& place <= u64::MAX ==> h.metadata_offsets[0] == place
                &&& place > u64::MAX ==> h.metadata_offsets[0] == u64::MAX
                &&& h.metadata_offsets[1] == 0
                &&& h.metadata_offsets[2] == 0
            })
        }),
{
    lemma_signatures(sector);
    let sector_size = if bytes::le16(sector, 11) == 0 {
        512
    } else {
        bytes::le16(sector, 11)
    };
    let sectors = if sector[13] == 0 {
        1
    } else {
        sector[13] as int
    };
    let cluster = bytes::le64(sector, 56);
    assert(0 <= cluster * (sector_size * sectors)) by (nonlinear_arith)
        requires
            0 <= cluster,
            0 <= sector_size,
            0 <= sectors,
    ;
    let entry = sector.take(3);
    let jump = seq![0xebu8, 0x58u8, 0x90u8];
    if sector[0] == 0xeb && sector[1] == 0x58 && sector[2] == 0x90 {
        assert(entry =~= jump);
    } else {
        assert(entry[0] == sector[0] && entry[1] == sector[1] && entry[2] == sector[2]);
        assert(jump[0] == 0xeb && jump[1] == 0x58 && jump[2] == 0x90);
    }
}

/// What a volume starts with and what came of reading its metadata decide what
/// is said of it: nothing without a signature, what the metadata says where
/// there is some, the error where reading it failed. Without metadata only the
/// signature of a fixed volume counts.
pub proof fn law_inspection(first: Seq<u8>, metadata: MetadataOutcomeView)
    requires
        first.len() <= 512,
    ensures
        ({
            let info = bitlocker::inspected(first, metadata);
            let signed = first.len() >= 11 && (bears_fixed(first) || bears_to_go(first));
            let header = bitlocker::volume_header(
                first + Seq::new((512 - first.len()) as nat, |i: int| 0u8),
            );
            &&& !signed ==> info == Ok::<
                Option<BitLockerInspectionView>,
                BitLockerDecryptErrorView,
            >(None)
            &&& signed ==> (header matches Some(h) && match metadata {
                MetadataOutcomeView::Parsed(m) => info == Ok::<
                    Option<BitLockerInspectionView>,
                    BitLockerDecryptErrorView,
                >(Some(BitLockerInspectionView::of(h, Some(m)))),
                MetadataOutcomeView::NoValidMetadata => info == Ok::<
                    Option<BitLockerInspectionView>,
                    BitLockerDecryptErrorView,
                >(
                    if bears_fixed(first) {
                        Some(BitLockerInspectionView::of(h, None))
                    } else {
                        None
                    },
                ),
                MetadataOutcomeView::Failed(text) => info == Err::<
                    Option<BitLockerInspectionView>,
                    BitLockerDecryptErrorView,
                >(BitLockerDecryptErrorView::Bde(text)),
            })
        }),
{
    let sector = bitlocker::first_sector(first);
    assert(sector =~= first + Seq::new((512 - first.len()) as nat, |i: int| 0u8));
    lemma_signatures(sector);
    if first.len() >= 11 {
        assert(sector.subrange(3, 11) =~= first.subrange(3, 11));
    }
}

/// A volume bears a header exactly if what it starts with bears a signature.
pub proof fn law_headers_by_start(first: Seq<u8>)
    requires
        first.len() <= 512,
    ensures
        first.len() >= 11 ==> (bitlocker::volume_header(bitlocker::first_sector(first)) is Some
            <==> bears_fixed(first) || bears_to_go(first)),
{
    let sector = bitlocker::first_sector(first);
    lemma_signatures(sector);
    if first.len() >= 11 {
        assert(sector.subrange(3, 11) =~= first.subrange(3, 11));
    }
}

/// Whether a group of a recovery key writes eleven times a 16-bit number in six
/// digits.
pub open spec fn is_key_group(group: Seq<char>) -> bool {
    group.len() == 6 && (numbers::value(group, 10) matches Some(n) && n % 11 == 0 && n <= 11
        * 0xffff)
}

/// The first group of a recovery key that is not right decides what is wrong
/// with the key. A key whose first eight groups are right is refused only if
/// it does not have just eight of them.
pub proof fn law_first_wrong_group_is_told(groups: Seq<Seq<char>>, k: int)
    requires
        groups.len() > 0,
        forall|i: int| 0 <= i < groups.len() ==> !(#[trigger] groups[i]).contains('-'),
        0 <= k <= groups.len(),
        k <= 8,
        forall|i: int| 0 <= i < k ==> is_key_group(#[trigger] groups[i]),
    ensures
        ({
            let fault = bitlocker::recovery_key_fault(text::join(groups, '-'));
            &&& k == 8 && groups.len() == 8 ==> fault is None
            &&& k == 8 && groups.len() > 8 ==> fault == Some(
                RecoveryKeyFormatError::WrongGroupCount,
            )
            &&& k < 8 && groups.len() == k ==> fault == Some(
                RecoveryKeyFormatError::WrongGroupCount,
            )
            &&& k < 8 && k < groups.len() ==> {
                let n = numbers::value(groups[k], 10);
                &&& groups[k].len() != 6 || n is None ==> fault == Some(
                    RecoveryKeyFormatError::BadGroupDigits,
                )
                &&& groups[k].len() == 6 ==> (n matches Some(v) ==> {
                    &&& v % 11 != 0 ==> fault == Some(RecoveryKeyFormatError::BadChecksum)
                    &&& v % 11 == 0 && v > 11 * 0xffff ==> fault == Some(
                        RecoveryKeyFormatError::GroupOutOfRange,
                    )
                })
            }
        }),
{
    text::law_split_undoes_join(groups, '-');
    lemma_right_groups(groups, 0, k);
    if k < groups.len() {
        numbers::lemma_decimal_value(groups[k]);
    }
}

proof fn lemma_right_groups(groups: Seq<Seq<char>>, from: int, k: int)
    requires
        0 <= from <= k <= groups.len(),
        k <= 8,
        forall|i: int| 0 <= i < k ==> is_key_group(#[trigger] groups[i]),
    ensures
        bitlocker::groups_fault(groups, from) == bitlocker::groups_fault(groups, k),
    decreases k - from,
{
    if from < k {
        assert(is_key_group(groups[from]));
        numbers::lemma_decimal_value(groups[from]);
        lemma_right_groups(groups, from + 1, k);
    }
}

/// What is said of a volume and of a refused recovery key.
pub proof fn law_what_is_said(e: RecoveryKeyFormatError, io: IoErrorView, m: Seq<char>)
    ensures
        BitLockerUnlockState::CredentialRequired.message()
            == "BitLocker volume detected; recovery key or password is required to decrypt"@,
        BitLockerUnlockState::CannotDecryptWithoutRecoveryKeyOrPassword.message()
            == "BitLocker volume detected; cannot decrypt without recovery key/password"@,
        BitLockerUnlockState::MetadataUnavailable.message()
            == "BitLocker header detected but FVE metadata could not be parsed"@,
        BitLockerUnlockState::UnsupportedProtector.message()
            == "BitLocker volume detected; no recovery-key/password protector is available"@,
        BitLockerProtectorKind::ClearKey.spec_label() == "clear key"@,
        BitLockerProtectorKind::Tpm.spec_label() == "TPM"@,
        BitLockerProtectorKind::StartupKey.spec_label() == "startup key"@,
        BitLockerProtectorKind::TpmAndPin.spec_label() == "TPM and PIN"@,
        BitLockerProtectorKind::RecoveryPassword.spec_label() == "recovery password"@,
        BitLockerProtectorKind::Password.spec_label() == "password"@,
        BitLockerProtectorKind::Unknown.spec_label() == "unknown"@,
        RecoveryKeyFormatError::WrongGroupCount.spec_message()
            == "recovery key must be exactly 8 groups"@,
        RecoveryKeyFormatError::BadGroupDigits.spec_message()
            == "each recovery key group must be 6 decimal digits"@,
        RecoveryKeyFormatError::BadChecksum.spec_message()
            == "recovery key group failed the divisible-by-11 checksum"@,
        RecoveryKeyFormatError::GroupOutOfRange.spec_message()
            == "recovery key group is out of range"@,
        BitLockerDecryptErrorView::Io(io).message() == "i/o error reading BitLocker volume: "@
            + io.message,
        BitLockerDecryptErrorView::Bde(m).message() == m,
        BitLockerDecryptErrorView::InvalidRecoveryKey(e).message()
            == "invalid BitLocker recovery key: "@ + e.spec_message(),
{
}

} // verus!
