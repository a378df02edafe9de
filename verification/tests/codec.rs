use git_objects::codec::{compress, decompress};
use git_objects::error::Error;

#[test]
fn decompress_undoes_compress() {
    let samples: Vec<Vec<u8>> = vec![
        Vec::new(),
        b"a".to_vec(),
        b"blob 16\0what is up, doc?".to_vec(),
        (0u8..=255).collect(),
        vec![0u8; 200_000],
        (0..100_000u32).map(|i| (i * 31 % 251) as u8).collect(),
    ];
    for data in samples {
        let stream = compress(&data).unwrap();
        assert_eq!(decompress(&stream), Ok(data));
    }
}

#[test]
fn compress_makes_a_zlib_stream() {
    let data = b"blob 16\0what is up, doc?".to_vec();
    let stream = compress(&data).unwrap();
    assert_ne!(stream, data);
    assert_eq!(stream[0], 0x78);
    let long = vec![b'a'; 10_000];
    assert!(compress(&long).unwrap().len() < 1_000);
}

#[test]
fn compress_of_equal_bytes_is_equal() {
    let data = b"tree 0\0".to_vec();
    assert_eq!(compress(&data), compress(&data.clone()));
}

#[test]
fn decompress_reads_a_stream_made_elsewhere() {
    let stream: Vec<u8> = vec![
        120, 1, 75, 202, 201, 79, 82, 48, 101, 200, 72, 205, 201, 201, 7, 0, 25, 170, 4, 9,
    ];
    assert_eq!(decompress(&stream), Ok(b"blob 5\0hello".to_vec()));
}

#[test]
fn decompress_refuses_a_stream_cut_short() {
    let stream = compress(b"blob 16\0what is up, doc?").unwrap();
    for keep in 0..stream.len() {
        assert_eq!(decompress(&stream[..keep]), Err(Error::Corrupt), "{}", keep);
    }
}

#[test]
fn decompress_refuses_what_is_no_stream() {
    assert_eq!(decompress(b""), Err(Error::Corrupt));
    assert_eq!(decompress(b"blob 16\0what is up, doc?"), Err(Error::Corrupt));
    assert_eq!(decompress(&[0u8; 64]), Err(Error::Corrupt));
}

#[test]
fn decompress_refuses_a_wrong_checksum() {
    let mut stream = compress(b"blob 16\0what is up, doc?").unwrap();
    let last = stream.len() - 1;
    stream[last] ^= 0xff;
    assert_eq!(decompress(&stream), Err(Error::Corrupt));
}
