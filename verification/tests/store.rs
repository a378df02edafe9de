use git_objects::codec::compress;
use git_objects::digest::{from_hex, to_hex};
use git_objects::error::Error;
use git_objects::frame::EntryType;
use git_objects::store::{
    get, get_tree, locate, locate_hex, prepare, put_finish, put_next, Fetched, Outcome, Step,
};
use std::collections::HashMap;

fn put(
    files: &mut HashMap<String, Vec<u8>>,
    kind: EntryType,
    content: &[u8],
) -> Result<[u8; 20], Error> {
    let pending = prepare(kind, content.to_vec())?;
    let path = format!("{}/{}", pending.location.dir, pending.location.file);
    let mut step = Step::MakeDir;
    loop {
        let outcome = match step {
            Step::MakeDir => Outcome::Existed,
            Step::WriteFile => {
                if files.contains_key(&path) {
                    Outcome::Existed
                } else {
                    files.insert(path.clone(), pending.bytes.clone());
                    Outcome::Done
                }
            }
            Step::Stored | Step::Failed => return put_finish(pending, step),
        };
        step = put_next(step, outcome);
    }
}

fn fetch(files: &HashMap<String, Vec<u8>>, digest: &[u8; 20]) -> Fetched {
    let location = locate(digest);
    match files.get(&format!("{}/{}", location.dir, location.file)) {
        Some(bytes) => Fetched::Found(bytes.clone()),
        None => Fetched::Missing,
    }
}

#[test]
fn locate_fans_out_on_the_first_two_digits() {
    let digest = from_hex("bd9dbf5aae1a3862dd1526723246b20206e5fc37").unwrap();
    let location = locate(&digest);
    assert_eq!(location.dir, "bd");
    assert_eq!(location.file, "9dbf5aae1a3862dd1526723246b20206e5fc37");
    let zero = locate(&[0u8; 20]);
    assert_eq!(zero.dir, "00");
    assert_eq!(zero.file, "0".repeat(38));
}

#[test]
fn locate_hex_reads_the_digest_first() {
    let (digest, location) = locate_hex("BD9DBF5AAE1A3862DD1526723246B20206E5FC37").unwrap();
    assert_eq!(to_hex(&digest), "bd9dbf5aae1a3862dd1526723246b20206e5fc37");
    assert_eq!(location.dir, "bd");
    assert_eq!(location.file, "9dbf5aae1a3862dd1526723246b20206e5fc37");
    assert!(matches!(locate_hex("bd9d"), Err(Error::InvalidArgument)));
    assert!(matches!(
        locate_hex("zd9dbf5aae1a3862dd1526723246b20206e5fc37"),
        Err(Error::InvalidArgument)
    ));
}

#[test]
fn prepare_hashes_the_frame_and_compresses_it() {
    let pending = prepare(EntryType::Blob, b"what is up, doc?".to_vec()).unwrap();
    assert_eq!(
        to_hex(&pending.digest),
        "bd9dbf5aae1a3862dd1526723246b20206e5fc37"
    );
    assert_eq!(pending.location.dir, "bd");
    assert_eq!(
        pending.location.file,
        "9dbf5aae1a3862dd1526723246b20206e5fc37"
    );
    assert_eq!(
        git_objects::codec::decompress(&pending.bytes),
        Ok(b"blob 16\0what is up, doc?".to_vec())
    );
}

#[test]
fn put_makes_the_directory_then_writes_the_file() {
    assert_eq!(put_next(Step::MakeDir, Outcome::Done), Step::WriteFile);
    assert_eq!(put_next(Step::MakeDir, Outcome::Existed), Step::WriteFile);
    assert_eq!(put_next(Step::MakeDir, Outcome::Failed), Step::Failed);
    assert_eq!(put_next(Step::WriteFile, Outcome::Done), Step::Stored);
    assert_eq!(put_next(Step::WriteFile, Outcome::Existed), Step::Stored);
    assert_eq!(put_next(Step::WriteFile, Outcome::Failed), Step::Failed);
}

#[test]
fn put_stays_at_its_end() {
    for outcome in [Outcome::Done, Outcome::Existed, Outcome::Failed] {
        assert_eq!(put_next(Step::Stored, outcome), Step::Stored);
        assert_eq!(put_next(Step::Failed, outcome), Step::Failed);
    }
}

#[test]
fn put_finish_gives_the_digest_or_an_io_failure() {
    let pending = prepare(EntryType::Blob, b"hello".to_vec()).unwrap();
    let digest = pending.digest;
    assert_eq!(put_finish(pending, Step::Stored), Ok(digest));
    let pending = prepare(EntryType::Blob, b"hello".to_vec()).unwrap();
    assert_eq!(put_finish(pending, Step::Failed), Err(Error::IoFailure));
    let pending = prepare(EntryType::Blob, b"hello".to_vec()).unwrap();
    assert_eq!(put_finish(pending, Step::WriteFile), Err(Error::IoFailure));
}

#[test]
fn get_gives_back_what_put_stored() {
    let mut files = HashMap::new();
    let samples: Vec<(EntryType, Vec<u8>)> = vec![
        (EntryType::Blob, b"what is up, doc?".to_vec()),
        (EntryType::Blob, Vec::new()),
        (EntryType::Tree, Vec::new()),
        (EntryType::Blob, b"with \0 zero and space".to_vec()),
        (EntryType::Blob, vec![7u8; 50_000]),
    ];
    let mut digests = Vec::new();
    for (kind, content) in &samples {
        digests.push(put(&mut files, *kind, content).unwrap());
    }
    for ((kind, content), digest) in samples.iter().zip(&digests) {
        assert_eq!(get(fetch(&files, digest)), Ok((*kind, content.clone())));
    }
}

#[test]
fn put_twice_is_put_once() {
    let mut files = HashMap::new();
    let first = put(&mut files, EntryType::Blob, b"what is up, doc?").unwrap();
    let after_first = files.clone();
    let second = put(&mut files, EntryType::Blob, b"what is up, doc?").unwrap();
    assert_eq!(first, second);
    assert_eq!(files, after_first);
    assert_eq!(files.len(), 1);
    assert_eq!(to_hex(&first), "bd9dbf5aae1a3862dd1526723246b20206e5fc37");
}

#[test]
fn put_does_not_replace_a_file() {
    let mut files = HashMap::new();
    let path = "bd/9dbf5aae1a3862dd1526723246b20206e5fc37".to_string();
    files.insert(path.clone(), b"already here".to_vec());
    let digest = put(&mut files, EntryType::Blob, b"what is up, doc?").unwrap();
    assert_eq!(files[&path], b"already here".to_vec());
    assert_eq!(get(fetch(&files, &digest)), Err(Error::Corrupt));
}

#[test]
fn get_of_a_digest_never_written_is_not_found() {
    let mut files = HashMap::new();
    put(&mut files, EntryType::Blob, b"what is up, doc?").unwrap();
    let other = from_hex("e69de29bb2d1d6434b8b29ae775ad8c2e48c5391").unwrap();
    assert_eq!(get(fetch(&files, &other)), Err(Error::NotFound));
    assert_eq!(get(Fetched::Missing), Err(Error::NotFound));
}

#[test]
fn get_of_an_unreadable_file_is_an_io_failure() {
    assert_eq!(get(Fetched::Unreadable), Err(Error::IoFailure));
    assert!(matches!(
        get_tree(Fetched::Unreadable),
        Err(Error::IoFailure)
    ));
}

#[test]
fn get_of_a_broken_file_is_corrupt() {
    assert_eq!(
        get(Fetched::Found(b"not a zlib stream".to_vec())),
        Err(Error::Corrupt)
    );
    assert_eq!(get(Fetched::Found(Vec::new())), Err(Error::Corrupt));
    let no_frame = compress(b"no-frame-here").unwrap();
    assert_eq!(get(Fetched::Found(no_frame)), Err(Error::Corrupt));
    let unknown = compress(b"commit 3\0abc").unwrap();
    assert_eq!(get(Fetched::Found(unknown)), Err(Error::Corrupt));
    let whole = prepare(EntryType::Blob, b"hello".to_vec()).unwrap().bytes;
    let cut = whole[..whole.len() - 1].to_vec();
    assert_eq!(get(Fetched::Found(cut)), Err(Error::Corrupt));
}

#[test]
fn get_tree_reads_a_stored_listing() {
    let mut payload = b"100644 a.txt\0".to_vec();
    payload.extend(0u8..20);
    payload.extend_from_slice(b"40000 src\0");
    payload.extend(20u8..40);
    let mut files = HashMap::new();
    let digest = put(&mut files, EntryType::Tree, &payload).unwrap();
    assert_eq!(to_hex(&digest), "bef5a7c7f69d34afba51d59d98ba1c9f64ff84e8");
    let tree = get_tree(fetch(&files, &digest)).unwrap();
    assert_eq!(tree.entries.len(), 2);
    assert_eq!(tree.entries[0].name, b"a.txt".to_vec());
    assert_eq!(tree.entries[0].entry_type, EntryType::Blob);
    assert_eq!(tree.entries[1].name, b"src".to_vec());
    assert_eq!(tree.entries[1].entry_type, EntryType::Tree);
}

#[test]
fn get_tree_refuses_other_objects() {
    let mut files = HashMap::new();
    let blob = put(&mut files, EntryType::Blob, b"what is up, doc?").unwrap();
    assert!(matches!(
        get_tree(fetch(&files, &blob)),
        Err(Error::InvalidArgument)
    ));
    let broken = put(&mut files, EntryType::Tree, b"100644 a.txt\0cut").unwrap();
    assert!(matches!(
        get_tree(fetch(&files, &broken)),
        Err(Error::Malformed)
    ));
    assert!(matches!(get_tree(Fetched::Missing), Err(Error::NotFound)));
    assert!(matches!(
        get_tree(Fetched::Found(b"junk".to_vec())),
        Err(Error::Corrupt)
    ));
}
