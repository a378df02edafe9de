use git_objects::digest::{digest, to_hex};
use git_objects::frame::{frame, EntryType};

#[test]
fn digest_is_sha1() {
    assert_eq!(
        to_hex(&digest(b"hello world")),
        "2aae6c35c94fcfb415dbe95f408b9ce91ee846ed"
    );
    assert_eq!(
        to_hex(&digest(b"")),
        "da39a3ee5e6b4b0d3255bfef95601890afd80709"
    );
    assert_eq!(
        to_hex(&digest(b"abc")),
        "a9993e364706816aba3e25717850c26c9cd0d89d"
    );
}

#[test]
fn digest_of_equal_bytes_is_equal() {
    let bytes = frame(EntryType::Blob, b"what is up, doc?");
    let first = digest(&bytes);
    let second = digest(&bytes.clone());
    assert_eq!(first, second);
    assert_eq!(first, digest(&bytes));
}

#[test]
fn digest_changes_with_any_byte() {
    let bytes = frame(EntryType::Blob, b"what is up, doc?");
    let before = digest(&bytes);
    for at in [0usize, 4, 5, 7, 8, 15, bytes.len() - 1] {
        let mut changed = bytes.clone();
        changed[at] ^= 1;
        assert_ne!(digest(&changed), before, "byte {}", at);
    }
    let mut longer = bytes.clone();
    longer.push(0);
    assert_ne!(digest(&longer), before);
}

#[test]
fn digest_of_a_frame_is_the_object_id() {
    assert_eq!(
        to_hex(&digest(&frame(EntryType::Blob, b"what is up, doc?"))),
        "bd9dbf5aae1a3862dd1526723246b20206e5fc37"
    );
    assert_eq!(
        to_hex(&digest(&frame(EntryType::Tree, b""))),
        "4b825dc642cb6eb9a060e54bf8d69288fbee4904"
    );
}
