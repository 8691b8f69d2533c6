use angolmois::key::{key2index, Key};

#[test]
fn key_round_trip_all() {
    for k in 0..1296i64 {
        let text = Key(k).encode();
        assert_eq!(key2index(&text), Some(k));
    }
}

#[test]
fn key_decode_examples() {
    assert_eq!(key2index(b"00"), Some(0));
    assert_eq!(key2index(b"zz"), Some(1295));
    assert_eq!(key2index(b"ZZ"), Some(1295));
    assert_eq!(key2index(b"1A"), Some(46));
    assert_eq!(key2index(b"1"), None);
    assert_eq!(key2index(b"1-"), None);
    assert_eq!(key2index(b""), None);
}

#[test]
fn key_hex_view() {
    assert_eq!(Key(46).to_hex(), Some(0x1a));
    assert_eq!(Key(15 * 36 + 15).to_hex(), Some(0xff));
    assert_eq!(Key(16 * 36).to_hex(), None);
    assert_eq!(Key(16).to_hex(), None);
    assert_eq!(Key(-1).to_hex(), None);
    assert_eq!(Key(1296).to_hex(), None);
}
