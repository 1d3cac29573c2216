use hieronymus::auth::{minecraft_style_crappy_hash, session_server_hash, verify_token_matches};
use sha1::Sha1;

fn test(input: &[u8], expected: &str) {
    let mut sha1 = Sha1::new();
    sha1.update(input);
    assert_eq!(minecraft_style_crappy_hash(&sha1.digest().bytes()), expected);
}

#[test]
fn test_crappy_hash() {
    test(b"Notch", "4ed1f46bbe04bc756bcb17c0c7ce3e4632f06a48");
    test(b"jeb_", "-7c9d5b0044c130109a5d7b5fb5c317c02b4e28c1");
    test(b"simon", "88e16a1019277b15d58faf0541e11910eb756f6");
}

#[test]
fn signed_hex_of_small_digests() {
    assert_eq!(minecraft_style_crappy_hash(&[0x00, 0x0f]), "f");
    assert_eq!(minecraft_style_crappy_hash(&[0xff, 0xff]), "-1");
    assert_eq!(minecraft_style_crappy_hash(&[0x80, 0x00]), "-8000");
    assert_eq!(minecraft_style_crappy_hash(&[0xff, 0x00]), "-100");
}

#[test]
fn session_hash_covers_id_secret_and_key() {
    let secret = [7u8; 16];
    let der = [1u8, 2, 3];
    let mut sha1 = Sha1::new();
    sha1.update(b"hiero|rejectnormalcy");
    sha1.update(&secret);
    sha1.update(&der);
    let expected = minecraft_style_crappy_hash(&sha1.digest().bytes());
    assert_eq!(session_server_hash(&secret, &der), expected);
}

#[test]
fn verify_token_prefix() {
    let stored = [1u8, 2, 3, 4, 5, 6, 7, 8];
    assert!(verify_token_matches(&stored, &stored));
    assert!(verify_token_matches(&stored, &[1, 2, 3, 4, 5, 6, 7, 8, 99, 100]));
    assert!(!verify_token_matches(&stored, &[1, 2, 3, 4, 5, 6, 7]));
    assert!(!verify_token_matches(&stored, &[0, 2, 3, 4, 5, 6, 7, 8]));
    assert!(!verify_token_matches(&stored, &[9, 1, 2, 3, 4, 5, 6, 7, 8]));
}
