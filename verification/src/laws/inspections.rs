//! Looking at BitLocker volumes: what the operations give back for what is found
//! in one.

use vstd::prelude::*;
use crate::bitlocker;
use crate::bitlocker::{BitLockerCredential, BitLockerDecryptError, BitLockerDecryptErrorView,
    BitLockerEncryptionMethod, BitLockerInspection, BitLockerProtectorKind, BitLockerUnlockState,
    MetadataFields, MetadataOutcome, MetadataOutcomeView, RecoveryKeyFormatError,
    VolumeHeaderFields};
use crate::laws::volumes;

verus! {

proof fn lemma_described(
    header: &VolumeHeaderFields,
    m: MetadataFields,
    info: BitLockerInspection,
)
    requires
        call_ensures(BitLockerInspection::from_header_and_metadata, (header, Some(m)), info),
    ensures
        exists|h: bitlocker::VolumeHeaderView| #[trigger]
            bitlocker::BitLockerInspectionView::of(h, Some(m@)) == info@,
{
    let h = bitlocker::VolumeHeaderView {
        variant: header.variant,
        metadata_offsets: header.metadata_offsets@,
    };
    assert(bitlocker::BitLockerInspectionView::of(h, Some(m@)) == info@);
}

/// Whatever the protectors of a volume are: if one of them has the number
/// 0x0800, the inspection says that a recovery key can unlock it; if one has
/// 0x2000, that a password can; and neither is said otherwise. Where either is
/// said a credential is required.
pub proof fn law_credentials_that_unlock(
    header: &VolumeHeaderFields,
    m: MetadataFields,
    info: BitLockerInspection,
    by_key: bool,
    by_password: bool,
    by_tpm_alone: bool,
)
    requires
        call_ensures(BitLockerInspection::from_header_and_metadata, (header, Some(m)), info),
        call_ensures(BitLockerInspection::can_unlock_with_recovery_key, (&info,), by_key),
        call_ensures(BitLockerInspection::can_unlock_with_password, (&info,), by_password),
        call_ensures(BitLockerInspection::is_tpm_only, (&info,), by_tpm_alone),
    ensures
        by_key <==> volumes::lists(m.protectors@, 0x0800),
        by_password <==> volumes::lists(m.protectors@, 0x2000),
        by_tpm_alone <==> volumes::needs_tpm(m.protectors@),
        info.unlock_state == BitLockerUnlockState::CredentialRequired <==> by_key || by_password,
        info.unlock_state == BitLockerUnlockState::CannotDecryptWithoutRecoveryKeyOrPassword
            <==> by_tpm_alone,
        info.unlock_state == BitLockerUnlockState::UnsupportedProtector <==> !by_key
            && !by_password && !by_tpm_alone,
        info.protectors@.len() == m.protectors@.len(),
        forall|i: int|
            0 <= i < m.protectors@.len() ==> (#[trigger] info.protectors@[i]).raw
                == m.protectors@[i],
{
    lemma_described(header, m, info);
    let h = choose|h: bitlocker::VolumeHeaderView| #[trigger]
        bitlocker::BitLockerInspectionView::of(h, Some(m@)) == info@;
    volumes::law_unlocking_follows_the_numbers(h, m@);
    volumes::law_inspection_hands_on(h, m@);
    assert(info@.protectors == info.protectors@);
}

/// What a volume starts with and what came of reading its metadata decide what
/// is said of it.
pub proof fn law_looking_at_a_volume(
    first: &Vec<u8>,
    metadata: MetadataOutcome,
    r: Result<Option<BitLockerInspection>, BitLockerDecryptError>,
    signed: bool,
)
    requires
        first@.len() <= 512,
        call_ensures(bitlocker::inspect_with_metadata, (first, metadata), r),
        call_ensures(bitlocker::has_header, (first,), signed),
    ensures
        signed <==> first@.len() >= 11 && (volumes::bears_fixed(first@) || volumes::bears_to_go(
            first@,
        )),
        !signed ==> (r matches Ok(None)),
        signed ==> match metadata {
            MetadataOutcome::Parsed(m) => r matches Ok(Some(info)) && info.protectors@.len()
                == m.protectors@.len() && (volumes::lists(m.protectors@, 0x0800) || volumes::lists(
                m.protectors@,
                0x2000,
            ) ==> info.unlock_state == BitLockerUnlockState::CredentialRequired),
            MetadataOutcome::NoValidMetadata => (r matches Ok(found)) && (r->Ok_0 is Some
                <==> volumes::bears_fixed(first@)) && (r->Ok_0 matches Some(info)
                ==> info.unlock_state == BitLockerUnlockState::MetadataUnavailable),
            MetadataOutcome::Failed(text) => r matches Err(e) && e@
                == BitLockerDecryptErrorView::Bde(text@),
        },
{
    volumes::law_inspection(first@, metadata@);
    volumes::law_headers_by_start(first@);
    let sector = bitlocker::first_sector(first@);
    if signed {
        let h = bitlocker::volume_header(sector)->Some_0;
        match metadata {
            MetadataOutcome::Parsed(m) => {
                volumes::law_unlocking_follows_the_numbers(h, m@);
                volumes::law_inspection_hands_on(h, m@);
            },
            _ => {},
        }
    }
}

/// A recovery key is taken as a credential exactly if its form is right, and
/// the error says what is wrong.
pub proof fn law_recovery_keys_are_checked(
    key: String,
    r: Result<BitLockerCredential, BitLockerDecryptError>,
)
    requires
        call_ensures(BitLockerCredential::recovery_key, (key,), r),
    ensures
        match bitlocker::recovery_key_fault(key@) {
            None => r matches Ok(BitLockerCredential::RecoveryKey(k)) && k@ == key@,
            Some(fault) => r matches Err(BitLockerDecryptError::InvalidRecoveryKey(e)) && e
                == fault,
        },
{
}

/// A key has the right form exactly if nothing is wrong with it.
pub proof fn law_forms_are_checked(key: &str, r: Result<(), RecoveryKeyFormatError>)
    requires
        call_ensures(bitlocker::validate_recovery_key_format, (key,), r),
    ensures
        match bitlocker::recovery_key_fault(key@) {
            None => r is Ok,
            Some(fault) => r matches Err(e) && e == fault,
        },
{
}

/// A credential is told by its kind alone.
pub proof fn law_credentials_are_kept_secret(
    secret: String,
    other: String,
    a: &'static str,
    b: &'static str,
    c: BitLockerCredential,
)
    requires
        call_ensures(
            BitLockerCredential::redacted,
            (&BitLockerCredential::Password(secret),),
            a,
        ),
        call_ensures(
            BitLockerCredential::redacted,
            (&BitLockerCredential::RecoveryKey(other),),
            b,
        ),
        call_ensures(BitLockerCredential::password, (secret,), c),
    ensures
        a@ == "BitLockerCredential::Password(<redacted>)"@,
        b@ == "BitLockerCredential::RecoveryKey(<redacted>)"@,
        c == BitLockerCredential::Password(secret),
{
}

/// Sectors are of 512 bytes: a byte lies in the sector whose number is its
/// tweak, less than a sector behind its start.
pub proof fn law_sectors(at: u64, start: u64, tweak: u128)
    requires
        call_ensures(bitlocker::bitlocker_sector_start, (at,), start),
        call_ensures(bitlocker::bitlocker_xts_tweak_value, (at,), tweak),
    ensures
        start == 512 * tweak,
        start <= at < start + 512,
{
}

/// What the numbers of protectors and methods mean.
pub proof fn law_numbers_are_told(
    raw: u16,
    kind: BitLockerProtectorKind,
    backed: bool,
    method: BitLockerEncryptionMethod,
)
    requires
        call_ensures(bitlocker::protector_kind, (raw,), kind),
        call_ensures(BitLockerProtectorKind::is_tpm_backed, (kind,), backed),
        call_ensures(bitlocker::encryption_method, (raw,), method),
    ensures
        kind == BitLockerProtectorKind::ClearKey <==> raw == 0,
        kind == BitLockerProtectorKind::Tpm <==> raw == 0x0100,
        kind == BitLockerProtectorKind::StartupKey <==> raw == 0x0200,
        kind == BitLockerProtectorKind::TpmAndPin <==> raw == 0x0500,
        kind == BitLockerProtectorKind::RecoveryPassword <==> raw == 0x0800,
        kind == BitLockerProtectorKind::Password <==> raw == 0x2000,
        backed <==> raw == 0x0100 || raw == 0x0500,
        method.raw == raw,
        method.decrypt_supported <==> raw == 0 || raw == 0x8000 || raw == 0x8002,
        method.description@ == bitlocker::method_of(raw).description,
{
}

/// What is said of a volume and of errors is the text of its state, kind or
/// cause.
pub proof fn law_texts_are_told(
    info: BitLockerInspection,
    status: &'static str,
    kind: BitLockerProtectorKind,
    label: &'static str,
    form: RecoveryKeyFormatError,
    form_text: &'static str,
    e: BitLockerDecryptError,
    e_text: String,
)
    requires
        call_ensures(BitLockerInspection::status_message, (&info,), status),
        call_ensures(BitLockerProtectorKind::label, (kind,), label),
        call_ensures(RecoveryKeyFormatError::message, (&form,), form_text),
        call_ensures(BitLockerDecryptError::message, (&e,), e_text),
    ensures
        status@ == info.unlock_state.message(),
        label@ == kind.spec_label(),
        form_text@ == form.spec_message(),
        e_text@ == e@.message(),
{
}

/// A volume that is held in memory is looked at by its first 512 bytes and the
/// metadata that is read from it.
pub proof fn law_looking_at_a_volume_in_memory(
    volume: &[u8],
    r: Result<Option<BitLockerInspection>, BitLockerDecryptError>,
)
    requires
        call_ensures(bitlocker::inspect_volume, (volume,), r),
    ensures
        volume@.len() < 11 || !(volumes::bears_fixed(volume@) || volumes::bears_to_go(volume@))
            ==> (r matches Ok(None)),
        volume@.len() >= 11 && (volumes::bears_fixed(volume@) || volumes::bears_to_go(volume@))
            ==> match bitlocker::volume_metadata(volume@) {
            MetadataOutcomeView::Parsed(m) => r matches Ok(Some(info)) && info.protectors@.len()
                == m.protectors.len() && (forall|i: int|
                0 <= i < m.protectors.len() ==> (#[trigger] info.protectors@[i]).raw
                    == m.protectors[i]) && (info.unlock_state
                == BitLockerUnlockState::CredentialRequired <==> volumes::lists(
                m.protectors,
                0x0800,
            ) || volumes::lists(m.protectors, 0x2000)),
            MetadataOutcomeView::NoValidMetadata => (r matches Ok(found)) && (r->Ok_0 is Some
                <==> volumes::bears_fixed(volume@)),
            MetadataOutcomeView::Failed(m) => r matches Err(e) && e@
                == BitLockerDecryptErrorView::Bde(m),
        },
{
    let n = if volume@.len() < 512 {
        volume@.len() as int
    } else {
        512
    };
    let first = volume@.take(n);
    let metadata = bitlocker::volume_metadata(volume@);
    volumes::law_inspection(first, metadata);
    volumes::law_headers_by_start(first);
    if volume@.len() >= 11 {
        assert(first.subrange(3, 11) =~= volume@.subrange(3, 11));
    }
    let view = bitlocker::inspected(first, metadata);
    assert(bitlocker::inspection_view(r) == view);
    match metadata {
        MetadataOutcomeView::Parsed(m) => {
            if bitlocker::volume_header(bitlocker::first_sector(first)) is Some {
                let h = bitlocker::volume_header(bitlocker::first_sector(first))->Some_0;
                volumes::law_unlocking_follows_the_numbers(h, m);
                volumes::law_inspection_hands_on(h, m);
                if r is Ok && r->Ok_0 is Some {
                    let info = r->Ok_0->Some_0;
                    assert(info@.protectors == info.protectors@);
                }
            }
        },
        _ => {},
    }
}

} // verus!
