use mtproto::AuthKey;

fn get_test_auth_key() -> AuthKey {
    let mut buffer = [0u8; 256];
    buffer
        .iter_mut()
        .enumerate()
        .for_each(|(i, x)| *x = i as u8);

    AuthKey::from_bytes(buffer)
}

fn get_test_new_nonce() -> [u8; 32] {
    let mut buffer = [0u8; 32];
    buffer
        .iter_mut()
        .enumerate()
        .for_each(|(i, x)| *x = i as u8);

    buffer
}

#[test]
fn auth_key_aux_hash() {
    let auth_key = get_test_auth_key();
    let expected = [73, 22, 214, 189, 183, 247, 142, 104];

    assert_eq!(auth_key.aux_hash, expected);
}

#[test]
fn auth_key_id() {
    let auth_key = get_test_auth_key();
    let expected = [50, 209, 88, 110, 164, 87, 223, 200];

    assert_eq!(auth_key.id, expected);
}

#[test]
fn calc_new_nonce_hash1() {
    let auth_key = get_test_auth_key();
    let new_nonce = get_test_new_nonce();
    assert_eq!(
        auth_key.calc_new_nonce_hash(&new_nonce, 1),
        [
            194, 206, 210, 179, 62, 89, 58, 85, 210, 127, 74, 93, 171, 238, 124, 103
        ]
    );
}

#[test]
fn calc_new_nonce_hash2() {
    let auth_key = get_test_auth_key();
    let new_nonce = get_test_new_nonce();
    assert_eq!(
        auth_key.calc_new_nonce_hash(&new_nonce, 2),
        [
            244, 49, 142, 133, 189, 47, 243, 190, 132, 217, 254, 252, 227, 220, 227, 159
        ]
    );
}

#[test]
fn calc_new_nonce_hash3() {
    let auth_key = get_test_auth_key();
    let new_nonce = get_test_new_nonce();
    assert_eq!(
        auth_key.calc_new_nonce_hash(&new_nonce, 3),
        [
            75, 249, 215, 179, 125, 180, 19, 238, 67, 29, 40, 81, 118, 49, 203, 61
        ]
    );
}

#[test]
fn auth_key_equality_goes_by_id() {
    let key1 = get_test_auth_key();
    let key2 = get_test_auth_key();
    assert_eq!(key1 == key2, true);
    assert_eq!(key1.id(), &key1.id);
    assert_eq!(key1.as_bytes().len(), 256);
    let bytes = key1.clone().into_bytes();
    assert_eq!(bytes[37], 37);
}
