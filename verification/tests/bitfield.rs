use bytes::Bytes;
use torrent_rs::bitfield::{Bitfield, BitfieldError};

#[test]
fn test_bitfield_set_and_have() {
    let num_pieces = 64;
    let mut my_bitfield = Bitfield::with_size(num_pieces);

    my_bitfield.set(15);
    assert!(my_bitfield.has(15));
}

#[test]
fn test_bail_of_wrong_length_bitfield() {
    // Test case 1: Bitfield too short
    let num_pieces = 20;
    let payload = Bytes::from(vec![0xFF, 0xFF]); // 2 bytes = 16 bits, but need 20
    let result = Bitfield::from_bytes_checked(payload, num_pieces);
    assert_eq!(
        result,
        Err(BitfieldError::InvalidLength {
            expected_len: 3,
            actual_len: 2
        })
    );

    // Test case 2: Bitfield with non-zero spare bits in last byte
    let num_pieces = 10; // Need 2 bytes, last byte has 6 spare bits
    let payload = Bytes::from(vec![0xFF, 0xFF]); // All bits set including spare bits
    let result = Bitfield::from_bytes_checked(payload, num_pieces);
    assert_eq!(result, Err(BitfieldError::NonZeroSpareBits));

    // Test case 3: Bitfield with correct last byte (spare bits zeroed)
    let num_pieces = 10;
    let payload = Bytes::from(vec![0xFF, 0xC0]); // Last 6 bits are zero
    let result = Bitfield::from_bytes_checked(payload, num_pieces);
    assert!(result.is_ok());
    let bitfield = result.unwrap();
    // Check first 10 bits are set
    for i in 0..10 {
        assert!(bitfield.has(i));
    }

    // Test case 4: Extra trailing bytes with non-zero values
    let num_pieces = 8;
    let payload = Bytes::from(vec![0xFF, 0x01]); // Extra byte with non-zero value
    let result = Bitfield::from_bytes_checked(payload, num_pieces);
    assert_eq!(result, Err(BitfieldError::NonZeroSpareBits));

    // Test case 5: Extra trailing bytes with zero values (should be OK)
    let num_pieces = 8;
    let payload = Bytes::from(vec![0xFF, 0x00, 0x00]); // Extra zero bytes
    let result = Bitfield::from_bytes_checked(payload, num_pieces);
    assert!(result.is_ok());
}

#[test]
fn test_validate_bitfield_from_peer() {
    // Scenario: Receive bitfield from peer before knowing torrent metadata
    let peer_payload = Bytes::from(vec![0b11110000, 0b10100000]); // 16 bits
    let mut bitfield = Bitfield::from_bytes_unchecked(peer_payload);

    // At this point we don't know num_pieces, so bitfield.num_pieces is 0
    assert_eq!(bitfield.num_pieces, 0);

    // Later we learn the torrent has 12 pieces
    let result = bitfield.validate(12);
    assert!(result.is_ok());
    assert_eq!(bitfield.num_pieces, 12);

    // Verify the bits are preserved correctly
    assert!(bitfield.has(0)); // 1
    assert!(bitfield.has(1)); // 1
    assert!(bitfield.has(2)); // 1
    assert!(bitfield.has(3)); // 1
    assert!(!bitfield.has(4)); // 0
    assert!(!bitfield.has(5)); // 0
    assert!(!bitfield.has(6)); // 0
    assert!(!bitfield.has(7)); // 0
    assert!(bitfield.has(8)); // 1
    assert!(!bitfield.has(9)); // 0
    assert!(bitfield.has(10)); // 1
    assert!(!bitfield.has(11)); // 0

    // Test validation failure: spare bits set
    let bad_payload = Bytes::from(vec![0xFF, 0xFF]); // All bits set
    let mut bad_bitfield = Bitfield::from_bytes_unchecked(bad_payload);
    let result = bad_bitfield.validate(10); // 10 pieces means last 6 bits should be 0
    assert_eq!(result, Err(BitfieldError::NonZeroSpareBits));

    // Test validation failure: too short
    let short_payload = Bytes::from(vec![0xFF]);
    let mut short_bitfield = Bitfield::from_bytes_unchecked(short_payload);
    let result = short_bitfield.validate(20); // Need at least 3 bytes
    assert_eq!(
        result,
        Err(BitfieldError::InvalidLength {
            expected_len: 3,
            actual_len: 1
        })
    );
}

#[test]
fn test_bitfield_operations() {
    let mut bitfield = Bitfield::with_size(20);

    // Test initial state - all bits should be 0
    for i in 0..20 {
        assert!(!bitfield.has(i));
    }

    // Set specific bits
    bitfield.set(0);
    bitfield.set(7);
    bitfield.set(8);
    bitfield.set(19);

    assert!(bitfield.has(0));
    assert!(bitfield.has(7));
    assert!(bitfield.has(8));
    assert!(bitfield.has(19));
    assert!(!bitfield.has(1));
    assert!(!bitfield.has(18));

    // Verify internal representation
    assert_eq!(bitfield.inner[0], 0b10000001); // bits 0 and 7
    assert_eq!(bitfield.inner[1], 0b10000000); // bit 8
    assert_eq!(bitfield.inner[2], 0b00010000); // bit 19
}

#[test]
fn test_resize() {
    let mut bitfield = Bitfield::with_size(8);
    bitfield.set(0);
    bitfield.set(7);

    // Resize to larger
    bitfield.resize(16);
    assert_eq!(bitfield.size(), 16);
    assert!(bitfield.has(0));
    assert!(bitfield.has(7));
    assert!(!bitfield.has(8));
    assert!(!bitfield.has(15));

    // Set bit in new range
    bitfield.set(15);
    assert!(bitfield.has(15));

    // Resize to smaller
    bitfield.resize(4);
    assert_eq!(bitfield.size(), 4);
    assert!(bitfield.has(0));
    assert!(!bitfield.has(7));
}

#[test]
fn test_lazy_bitfield_scenario() {
    // Simulate Deluge client sending incomplete bitfield initially
    let num_pieces = 16;
    let initial_payload = Bytes::from(vec![0b11110000, 0b10100000]); // Missing some pieces
    let bitfield = Bitfield::from_bytes_checked(initial_payload, num_pieces);
    assert!(bitfield.is_ok());

    let bf = bitfield.unwrap();
    // Client has pieces 0,1,2,3,8,10 but not others
    assert!(bf.has(0));
    assert!(bf.has(1));
    assert!(bf.has(2));
    assert!(bf.has(3));
    assert!(!bf.has(4));
    assert!(bf.has(8));
    assert!(!bf.has(9));
    assert!(bf.has(10));
    // Later client would send HAVE messages for remaining pieces
}

#[test]
fn test_edge_cases() {
    // Empty bitfield
    let bitfield = Bitfield::new();
    assert!(bitfield.is_empty());
    assert_eq!(bitfield.size(), 0);

    // Single bit
    let mut single = Bitfield::with_size(1);
    assert!(!single.has(0));
    single.set(0);
    assert!(single.has(0));
    assert_eq!(single.inner[0], 0b10000000);

    // Exactly 8 bits
    let eight = Bitfield::with_size(8);
    assert_eq!(eight.inner.len(), 1);

    // 9 bits requires 2 bytes
    let nine = Bitfield::with_size(9);
    assert_eq!(nine.inner.len(), 2);
}

#[test]
fn test_clear_trailing_bits() {
    let mut bitfield = Bitfield::with_size(10);

    // Manually corrupt the trailing bits
    bitfield.inner[1] = 0xFF; // Set all bits in second byte

    // Clear trailing should fix this
    bitfield.clear_trailing_bits();

    // Last 6 bits of second byte should be 0
    assert_eq!(bitfield.inner[1] & 0b00111111, 0);
}

#[test]
fn test_bitfield_from_all_pieces() {
    // Simulate a seeder with all pieces
    let num_pieces = 23;
    let mut payload = vec![0xFF, 0xFF, 0xFF]; // All bits set

    // Clear the spare bits in the last byte
    let spare_bits = 8 - (num_pieces % 8);
    if spare_bits < 8 {
        let last_idx = payload.len() - 1;
        payload[last_idx] = 0xFF << spare_bits;
    }

    let bitfield = Bitfield::from_bytes_checked(Bytes::from(payload), num_pieces);
    assert!(bitfield.is_ok());

    let bf = bitfield.unwrap();
    for i in 0..num_pieces {
        assert!(bf.has(i), "Piece {} should be set", i);
    }
}

#[test]
fn own_bytes_pass_their_own_check() {
    let mut bitfield = Bitfield::with_size(11);
    bitfield.set(3);
    bitfield.set(10);
    let again = Bitfield::from_bytes_checked(Bytes::copy_from_slice(bitfield.as_bytes()), 11);
    assert_eq!(again.unwrap().iter_set(), vec![3, 10]);
    let all = Bitfield::with_all_set(11);
    assert_eq!(all.as_bytes(), &[0xFF, 0b11100000]);
    assert!(all.all_set());
    assert!(!bitfield.all_set());
    assert_eq!(bitfield.copy().iter_set(), vec![3, 10]);
}
