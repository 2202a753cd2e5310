use node_graph_interpreter::station::{hash, Key, NAME_MAX_LEN};

#[test]
fn hash_of_empty_is_the_offset_basis() {
    assert_eq!(hash(b""), 0xcbf29ce484222325);
}

#[test]
fn hash_folds_one_byte() {
    // One FNV-1a step by hand: xor the byte, multiply by the prime.
    let expected = (0xcbf29ce484222325u64 ^ 0x61).wrapping_mul(0x100000001b3);
    assert_eq!(hash(b"a"), expected);
}

#[test]
fn hash_reads_at_most_four_bytes() {
    assert_eq!(hash(b"abcdef"), hash(b"abcdXYZ"));
    assert_ne!(hash(b"abc"), hash(b"abd"));
}

#[test]
fn key_round_trip() {
    let k = Key::new(b"Hamburg");
    assert_eq!(k.as_bytes(), b"Hamburg");
    assert!(k.eq_name(b"Hamburg"));
    assert!(!k.eq_name(b"Hamburg "));
    assert!(!k.eq_name(b"Hamburf"));
    assert!(!k.eq_name(b""));
}

#[test]
fn key_maximum_length() {
    let name = [b'x'; NAME_MAX_LEN];
    let k = Key::new(&name);
    assert_eq!(k.as_bytes().len(), NAME_MAX_LEN);
    assert!(k.eq_name(&name));
}

#[test]
fn default_key_is_empty() {
    let k = Key::default();
    assert_eq!(k.as_bytes(), b"");
    assert!(k.eq_name(b""));
    assert!(!k.eq_name(b"x"));
}
