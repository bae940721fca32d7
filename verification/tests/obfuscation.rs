use mtproto::ctr::CtrCipher;
use mtproto::transport::{Error, Intermediate, Obfuscated, Transport};
use mtproto::DequeBuffer;

fn test_header() -> [u8; 64] {
    let mut header = [0u8; 64];
    for (i, b) in header.iter_mut().enumerate() {
        *b = (i as u8).wrapping_mul(7).wrapping_add(3);
    }
    // Keep the draw usable: a first byte and word that are not reserved,
    // and a second word that is not zero.
    header[0] = 0x01;
    header[4] = 0x01;
    header
}

fn contents(b: &DequeBuffer) -> Vec<u8> {
    b.subvec(0, b.len())
}

fn send_key_of(header: &[u8; 64]) -> ([u8; 32], u128) {
    let key: [u8; 32] = header[8..40].try_into().unwrap();
    let iv = u128::from_be_bytes(header[40..56].try_into().unwrap());
    (key, iv)
}

fn recv_key_of(header: &[u8; 64]) -> ([u8; 32], u128) {
    let mut seg: Vec<u8> = header[8..56].to_vec();
    seg.reverse();
    let key: [u8; 32] = seg[0..32].try_into().unwrap();
    let iv = u128::from_be_bytes(seg[32..48].try_into().unwrap());
    (key, iv)
}

#[test]
fn obfuscated_pack_twice_differs_and_mirror_recovers() {
    let header = test_header();
    let mut t = Obfuscated::new_with_header(Intermediate::new(), header).unwrap();

    let payload = [0xAAu8, 0xBB, 0xCC, 0xDD];
    let mut b1 = DequeBuffer::new();
    b1.extend_from_slice(&payload);
    t.pack(&mut b1);
    let wire1 = contents(&b1);
    assert_eq!(wire1.len(), 64 + 8);
    // The clear 56 bytes of the one-time header go out first.
    assert_eq!(&wire1[0..56], &header[0..56]);

    let mut b2 = DequeBuffer::new();
    b2.extend_from_slice(&payload);
    t.pack(&mut b2);
    let wire2 = contents(&b2);
    assert_eq!(wire2.len(), 8);

    // Same plaintext frame, different ciphertext: the keystream advanced.
    assert_ne!(&wire1[64..72], &wire2[..]);

    // The peer's mirrored cipher reads the whole stream back.
    let (key, iv) = send_key_of(&header);
    let mut mirror = CtrCipher::new(key, iv);
    let mut stream = DequeBuffer::new();
    stream.extend_from_slice(&wire1);
    stream.extend_from_slice(&wire2);
    mirror.apply(&mut stream, 0);
    let plain = contents(&stream);
    // The deciphered header tail names the wrapped scheme.
    assert_eq!(&plain[56..60], &[0xee, 0xee, 0xee, 0xee]);
    // Both frames come back, in order.
    let frame = [4u8, 0, 0, 0, 0xAA, 0xBB, 0xCC, 0xDD];
    assert_eq!(&plain[64..72], &frame[..]);
    assert_eq!(&plain[72..80], &frame[..]);
}

#[test]
fn obfuscated_unpack_deciphers_and_resumes() {
    let header = test_header();
    let mut t = Obfuscated::new_with_header(Intermediate::new(), header).unwrap();

    // What the peer would send: two intermediate frames enciphered with
    // the receiving keystream.
    let frame1 = [4u8, 0, 0, 0, 0xAA, 0xBB, 0xCC, 0xDD];
    let frame2 = [4u8, 0, 0, 0, 0x01, 0x02, 0x03, 0x04];
    let (key, iv) = recv_key_of(&header);
    let mut peer = CtrCipher::new(key, iv);
    let mut outgoing = DequeBuffer::new();
    outgoing.extend_from_slice(&frame1);
    outgoing.extend_from_slice(&frame2);
    peer.apply(&mut outgoing, 0);
    let wire = contents(&outgoing);

    // Feed a partial frame: not enough data, and a retry with more bytes
    // must keep deciphering from the same keystream position.
    let mut rx = DequeBuffer::new();
    rx.extend_from_slice(&wire[0..3]);
    assert_eq!(t.unpack(&mut rx), Err(Error::MissingBytes));
    rx.extend_from_slice(&wire[3..6]);
    assert_eq!(t.unpack(&mut rx), Err(Error::MissingBytes));
    rx.extend_from_slice(&wire[6..12]);
    let off = t.unpack(&mut rx).unwrap();
    assert_eq!(off.data_range, 4..8);
    assert_eq!(off.next_offset, 8);
    assert_eq!(contents(&rx)[off.data_range.clone()], frame1[4..8]);
    rx.skip_prefix(off.next_offset);
    rx.extend_from_slice(&wire[12..16]);
    let off2 = t.unpack(&mut rx).unwrap();
    assert_eq!(off2.data_range, 4..8);
    assert_eq!(off2.next_offset, 8);
    assert_eq!(contents(&rx)[off2.data_range.clone()], frame2[4..8]);
}

#[test]
fn obfuscated_random_header_is_usable() {
    let mut t = Obfuscated::new(Intermediate::new()).expect("randomness available");
    let mut buf = DequeBuffer::new();
    buf.extend_from_slice(&[1, 2, 3, 4]);
    t.pack(&mut buf);
    let wire = contents(&buf);
    assert_eq!(wire.len(), 64 + 8);
    assert_ne!(wire[0], 0xef);
    let w0 = u32::from_le_bytes(wire[0..4].try_into().unwrap());
    for reserved in [
        0x44414548u32,
        0x54534f50,
        0x20544547,
        0x4954504f,
        0xdddddddd,
        0xeeeeeeee,
        0x02010316,
    ] {
        assert_ne!(w0, reserved);
    }
    let w1 = u32::from_le_bytes(wire[4..8].try_into().unwrap());
    assert_ne!(w1, 0);
}

#[test]
fn obfuscated_rejects_marked_headers() {
    let mut header = test_header();
    header[0] = 0xef;
    assert!(Obfuscated::new_with_header(Intermediate::new(), header).is_none());

    let mut header2 = test_header();
    header2[0..4].copy_from_slice(&[0xdd, 0xdd, 0xdd, 0xdd]);
    assert!(Obfuscated::new_with_header(Intermediate::new(), header2).is_none());

    let mut header3 = test_header();
    header3[4..8].copy_from_slice(&[0, 0, 0, 0]);
    assert!(Obfuscated::new_with_header(Intermediate::new(), header3).is_none());
}

#[test]
fn ctr_cipher_matches_published_aes256_vector() {
    // AES-256 of the all-zero block under the all-zero key; enciphering
    // zero bytes at counter zero exposes the raw keystream block.
    let mut cipher = CtrCipher::new([0u8; 32], 0u128);
    let mut buf = DequeBuffer::new();
    buf.extend_from_slice(&[0u8; 16]);
    cipher.apply(&mut buf, 0);
    assert_eq!(
        contents(&buf),
        vec![
            0xdc, 0x95, 0xc0, 0x78, 0xa2, 0x40, 0x89, 0x89, 0xad, 0x48, 0xa2, 0x14, 0x92, 0x84,
            0x20, 0x87
        ]
    );
}

#[test]
fn ctr_cipher_is_an_involution() {
    let key = [0x5au8; 32];
    let mut enc = CtrCipher::new(key, 0x0123456789abcdefu128);
    let mut dec = CtrCipher::new(key, 0x0123456789abcdefu128);
    let data: Vec<u8> = (0u8..=255).cycle().take(100).collect();
    let mut buf = DequeBuffer::new();
    buf.extend_from_slice(&data);
    enc.apply(&mut buf, 0);
    assert_ne!(contents(&buf), data);
    dec.apply(&mut buf, 0);
    assert_eq!(contents(&buf), data);
}
