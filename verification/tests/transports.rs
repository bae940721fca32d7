use mtproto::transport::{Abridged, Error, Full, Intermediate, Tagged, Transport};
use mtproto::DequeBuffer;

fn buffer_of(bytes: &[u8]) -> DequeBuffer {
    let mut b = DequeBuffer::new();
    b.extend_from_slice(bytes);
    b
}

fn contents(b: &DequeBuffer) -> Vec<u8> {
    b.subvec(0, b.len())
}

// Scenario from the intermediate wire format: a four-byte length, then
// the payload.
#[test]
fn intermediate_unpack_exact_frame() {
    let mut t = Intermediate::new();
    let mut buf = buffer_of(&[0x04, 0x00, 0x00, 0x00, 0xAA, 0xBB, 0xCC, 0xDD]);
    let off = t.unpack(&mut buf).unwrap();
    assert_eq!(off.data_range, 4..8);
    assert_eq!(off.next_offset, 8);
}

#[test]
fn intermediate_unpack_six_bytes_is_missing() {
    let mut t = Intermediate::new();
    let mut buf = buffer_of(&[0x04, 0x00, 0x00, 0x00, 0xAA, 0xBB]);
    assert_eq!(t.unpack(&mut buf), Err(Error::MissingBytes));
}

#[test]
fn intermediate_unpack_negative_length_is_status() {
    let mut t = Intermediate::new();
    let mut buf = buffer_of(&[0xFF, 0xFF, 0xFF, 0xFF]);
    assert_eq!(t.unpack(&mut buf), Err(Error::Status(-1)));
}

#[test]
fn intermediate_pack_sends_tag_once() {
    let mut t = Intermediate::new();
    let mut buf = buffer_of(&[1, 2, 3, 4]);
    t.pack(&mut buf);
    assert_eq!(
        contents(&buf),
        vec![0xee, 0xee, 0xee, 0xee, 4, 0, 0, 0, 1, 2, 3, 4]
    );
    let mut buf2 = buffer_of(&[5, 6, 7, 8]);
    t.pack(&mut buf2);
    assert_eq!(contents(&buf2), vec![4, 0, 0, 0, 5, 6, 7, 8]);
}

#[test]
fn intermediate_roundtrip() {
    let payload: Vec<u8> = (0u8..=255).cycle().take(1024).collect();
    let mut sender = Intermediate::new();
    let _ = sender.init_tag();
    let mut buf = buffer_of(&payload);
    sender.pack(&mut buf);
    let mut receiver = Intermediate::new();
    let off = receiver.unpack(&mut buf).unwrap();
    assert_eq!(off.next_offset, buf.len());
    assert_eq!(contents(&buf)[off.data_range.clone()], payload[..]);
}

#[test]
fn intermediate_truncated_prefixes_ask_for_more() {
    let payload = [9u8, 8, 7, 6, 5, 4, 3, 2];
    let mut sender = Intermediate::new();
    let _ = sender.init_tag();
    let mut buf = buffer_of(&payload);
    sender.pack(&mut buf);
    let frame = contents(&buf);
    for cut in 0..frame.len() {
        let mut receiver = Intermediate::new();
        let mut partial = buffer_of(&frame[..cut]);
        assert_eq!(receiver.unpack(&mut partial), Err(Error::MissingBytes));
    }
}

#[test]
fn abridged_pack_small_frame() {
    let mut t = Abridged::new();
    let mut buf = buffer_of(&[1, 2, 3, 4, 5, 6, 7, 8]);
    t.pack(&mut buf);
    assert_eq!(contents(&buf), vec![2, 1, 2, 3, 4, 5, 6, 7, 8]);
}

#[test]
fn abridged_roundtrip_small() {
    let payload = [1u8, 2, 3, 4, 5, 6, 7, 8];
    let mut sender = Abridged::new();
    let mut buf = buffer_of(&payload);
    sender.pack(&mut buf);
    let mut receiver = Abridged::new();
    let off = receiver.unpack(&mut buf).unwrap();
    assert_eq!(off.data_range, 1..9);
    assert_eq!(off.next_offset, buf.len());
    assert_eq!(contents(&buf)[off.data_range.clone()], payload[..]);
}

#[test]
fn abridged_roundtrip_large() {
    // 127 words force the four-byte header form.
    let payload: Vec<u8> = (0u8..=255).cycle().take(508).collect();
    let mut sender = Abridged::new();
    let mut buf = buffer_of(&payload);
    sender.pack(&mut buf);
    let frame = contents(&buf);
    assert_eq!(frame[0], 0x7f);
    assert_eq!(&frame[1..4], &[127, 0, 0]);
    let mut receiver = Abridged::new();
    let off = receiver.unpack(&mut buf).unwrap();
    assert_eq!(off.data_range, 4..512);
    assert_eq!(off.next_offset, 512);
    assert_eq!(contents(&buf)[off.data_range.clone()], payload[..]);
}

#[test]
fn abridged_truncated_prefixes_ask_for_more() {
    for payload_len in [8usize, 508] {
        let payload: Vec<u8> = (0u8..=255).cycle().take(payload_len).collect();
        let mut sender = Abridged::new();
        let mut buf = buffer_of(&payload);
        sender.pack(&mut buf);
        let frame = contents(&buf);
        for cut in 0..frame.len() {
            let mut receiver = Abridged::new();
            let mut partial = buffer_of(&frame[..cut]);
            assert_eq!(receiver.unpack(&mut partial), Err(Error::MissingBytes));
        }
    }
}

#[test]
fn abridged_init_tag() {
    let mut t = Abridged::new();
    assert_eq!(mtproto::transport::Tagged::init_tag(&mut t), [0xef; 4]);
}

#[test]
fn full_pack_layout_and_roundtrip() {
    let payload = [1u8, 2, 3, 4, 5, 6, 7, 8];
    let mut sender = Full::new();
    let mut buf = buffer_of(&payload);
    sender.pack(&mut buf);
    let frame = contents(&buf);
    assert_eq!(frame.len(), 20);
    assert_eq!(&frame[0..4], &[20, 0, 0, 0]);
    assert_eq!(&frame[4..8], &[0, 0, 0, 0]);
    assert_eq!(&frame[8..16], &payload[..]);
    let expected_crc = crc32fast::hash(&frame[0..16]);
    assert_eq!(&frame[16..20], &expected_crc.to_le_bytes()[..]);

    let mut receiver = Full::new();
    let off = receiver.unpack(&mut buf).unwrap();
    assert_eq!(off.data_range, 8..16);
    assert_eq!(off.next_offset, 20);
    assert_eq!(contents(&buf)[off.data_range.clone()], payload[..]);
}

#[test]
fn full_consecutive_sequence_numbers() {
    let mut sender = Full::new();
    let mut b1 = buffer_of(&[1, 2, 3, 4]);
    sender.pack(&mut b1);
    let mut b2 = buffer_of(&[5, 6, 7, 8]);
    sender.pack(&mut b2);
    let f1 = contents(&b1);
    let f2 = contents(&b2);
    let s1 = u32::from_le_bytes(f1[4..8].try_into().unwrap());
    let s2 = u32::from_le_bytes(f2[4..8].try_into().unwrap());
    assert_eq!(s1, 0);
    assert_eq!(s2, s1 + 1);

    // A receiver accepts them only in order.
    let mut receiver = Full::new();
    let mut rx = DequeBuffer::new();
    rx.extend_from_slice(&f1);
    rx.extend_from_slice(&f2);
    let off1 = receiver.unpack(&mut rx).unwrap();
    assert_eq!(off1.next_offset, 16);
    rx.skip_prefix(off1.next_offset);
    let off2 = receiver.unpack(&mut rx).unwrap();
    assert_eq!(off2.next_offset, 16);
}

#[test]
fn full_rejects_wrong_sequence() {
    let mut sender = Full::new();
    let mut skipped = buffer_of(&[1, 2, 3, 4]);
    sender.pack(&mut skipped);
    let mut second = buffer_of(&[5, 6, 7, 8]);
    sender.pack(&mut second);

    let mut receiver = Full::new();
    assert_eq!(
        receiver.unpack(&mut second),
        Err(Error::BadSeq {
            expected: 0,
            received: 1
        })
    );
}

#[test]
fn full_rejects_short_length() {
    let mut receiver = Full::new();
    let mut buf = buffer_of(&[4, 0, 0, 0]);
    assert_eq!(receiver.unpack(&mut buf), Err(Error::BadLen(4)));
}

#[test]
fn full_truncated_prefixes_ask_for_more() {
    let payload = [1u8, 2, 3, 4, 5, 6, 7, 8];
    let mut sender = Full::new();
    let mut buf = buffer_of(&payload);
    sender.pack(&mut buf);
    let frame = contents(&buf);
    for cut in 0..frame.len() {
        let mut receiver = Full::new();
        let mut partial = buffer_of(&frame[..cut]);
        assert_eq!(receiver.unpack(&mut partial), Err(Error::MissingBytes));
    }
}

#[test]
fn empty_payload_roundtrips() {
    let mut ab = Abridged::new();
    let mut buf = DequeBuffer::new();
    ab.pack(&mut buf);
    assert_eq!(contents(&buf), vec![0]);
    let off = ab.unpack(&mut buf).unwrap();
    assert_eq!(off.data_range, 1..1);
    assert_eq!(off.next_offset, 1);

    let mut im = Intermediate::new();
    let _ = im.init_tag();
    let mut buf2 = DequeBuffer::new();
    im.pack(&mut buf2);
    assert_eq!(contents(&buf2), vec![0, 0, 0, 0]);
    let off2 = im.unpack(&mut buf2).unwrap();
    assert_eq!(off2.data_range, 4..4);
    assert_eq!(off2.next_offset, 4);

    let mut fu = Full::new();
    let mut buf3 = DequeBuffer::new();
    fu.pack(&mut buf3);
    assert_eq!(buf3.len(), 12);
    let mut rx = Full::new();
    let off3 = rx.unpack(&mut buf3).unwrap();
    assert_eq!(off3.data_range, 8..8);
    assert_eq!(off3.next_offset, 12);
}

#[test]
fn full_bit_flips_are_rejected() {
    let payload = [1u8, 2, 3, 4, 5, 6, 7, 8];
    let mut sender = Full::new();
    let mut buf = buffer_of(&payload);
    sender.pack(&mut buf);
    let frame = contents(&buf);
    for byte_i in 0..frame.len() {
        for bit in 0..8 {
            let mut corrupted = frame.clone();
            corrupted[byte_i] ^= 1u8 << bit;
            let mut receiver = Full::new();
            let mut rx = buffer_of(&corrupted);
            let r = receiver.unpack(&mut rx);
            if byte_i < 4 {
                // A flip in the length field reads as another length.
                assert!(matches!(
                    r,
                    Err(Error::BadLen(_)) | Err(Error::MissingBytes) | Err(Error::BadCrc { .. })
                ));
            } else if byte_i < 8 {
                // A flip in the sequence field is caught by the counter.
                assert!(matches!(r, Err(Error::BadSeq { .. })));
            } else {
                // Every other flip is caught by the checksum.
                assert!(matches!(r, Err(Error::BadCrc { .. })));
            }
        }
    }
}
