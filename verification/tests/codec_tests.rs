use slatewallet::WalletError;
use slatewallet::codec::decode_slate;
use slatewallet::slate::{ParticipantData, Slate};

fn sample_slate() -> Slate {
    let mut s = Slate::new(0x00112233445566778899aabbccddeeff, 2, 5_000_000_000, 8_000_000, None);
    s.add_participant(ParticipantData { id: 0, commit: 11, nonce: 22, has_sig: false, sig: 0 });
    s.add_participant(ParticipantData { id: 1, commit: 33, nonce: 44, has_sig: true, sig: 55 });
    s
}

#[test]
fn round_trip_reproduces_the_payload() {
    let s = sample_slate();
    let bytes = s.encode();
    let t = decode_slate(&bytes).unwrap();
    assert_eq!(t.id, s.id);
    assert_eq!(t.version, s.version);
    assert_eq!(t.amount, s.amount);
    assert_eq!(t.fee, s.fee);
    assert_eq!(t.participants, s.participants);
    assert_eq!(t.message, None);
}

#[test]
fn round_trip_keeps_an_empty_contribution_list() {
    let s = Slate::new(7, 1, 42, 8_000_000, None);
    let bytes = s.encode();
    assert_eq!(bytes.len(), 42);
    let t = decode_slate(&bytes).unwrap();
    assert_eq!(t.id, 7);
    assert_eq!(t.version, 1);
    assert_eq!(t.amount, 42);
    assert!(t.participants.is_empty());
}

#[test]
fn wire_layout_is_little_endian() {
    let s = Slate::new(0x0102, 2, 0x0304, 0x0506, None);
    let bytes = s.encode();
    // Version, 2 bytes.
    assert_eq!(&bytes[0..2], &[2, 0]);
    // Identifier, 16 bytes little-endian.
    assert_eq!(&bytes[2..4], &[0x02, 0x01]);
    assert_eq!(&bytes[4..18], &[0u8; 14]);
    // Amount and fee, 8 bytes each.
    assert_eq!(&bytes[18..20], &[0x04, 0x03]);
    assert_eq!(&bytes[26..28], &[0x06, 0x05]);
    // Contribution count.
    assert_eq!(&bytes[34..42], &[0u8; 8]);
}

#[test]
fn contribution_blocks_are_33_bytes() {
    let s = sample_slate();
    let bytes = s.encode();
    assert_eq!(bytes.len(), 42 + 2 * 33);
    // The signature flag of the first block is clear, of the second set.
    assert_eq!(bytes[42 + 24], 0);
    assert_eq!(bytes[42 + 33 + 24], 1);
}

#[test]
fn decode_rejects_truncated_input() {
    let s = sample_slate();
    let mut bytes = s.encode();
    bytes.pop();
    assert_eq!(decode_slate(&bytes).unwrap_err(), WalletError::ValidationError);
    let short: Vec<u8> = vec![0; 41];
    assert_eq!(decode_slate(&short).unwrap_err(), WalletError::ValidationError);
}

#[test]
fn decode_rejects_trailing_garbage() {
    let s = sample_slate();
    let mut bytes = s.encode();
    bytes.push(0);
    assert_eq!(decode_slate(&bytes).unwrap_err(), WalletError::ValidationError);
}

#[test]
fn decode_rejects_a_mangled_signature_flag() {
    let s = sample_slate();
    let mut bytes = s.encode();
    bytes[42 + 24] = 7;
    assert_eq!(decode_slate(&bytes).unwrap_err(), WalletError::ValidationError);
}

#[test]
fn decode_rejects_a_count_that_overstates_the_length() {
    let s = sample_slate();
    let mut bytes = s.encode();
    bytes[34] = 3;
    assert_eq!(decode_slate(&bytes).unwrap_err(), WalletError::ValidationError);
}
