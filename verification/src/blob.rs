use crate::bytes::append_bytes;
use crate::codec::{compress, compressed, decompress, zlib_inflated};
use crate::digest::{digest, digest_of_hex, from_hex, lemma_from_hex_to_hex, sha1_of, to_hex};
use crate::error::Error;
use crate::frame::{
    frame_header, frame_split, framed, header, lemma_frame_split, lemma_frame_split_agree,
    split_frame, EntryType,
};
use crate::hex::{decode_hex, encode_hex, hex_of, is_hex, unhex};
use crate::store::{dir_of, file_of, locate};
use vstd::prelude::*;
use vstd::slice::{slice_subrange, slice_to_vec};
use vstd::string::*;

verus! {

/// An object of the store: its kind and content, with the header that
/// frames the content and the digest under which the object is stored.
pub struct Blob {
    pub kind: EntryType,
    pub content: Vec<u8>,
    pub header: Vec<u8>,
    pub hash: [u8; 20],
    pub hash_string: String,
}

/// An object as plain values.
pub struct BlobView {
    pub kind: EntryType,
    pub content: Seq<u8>,
    pub header: Seq<u8>,
    pub hash: Seq<u8>,
    pub hash_string: Seq<char>,
}

impl View for Blob {
    type V = BlobView;

    open spec fn view(&self) -> BlobView {
        BlobView {
            kind: self.kind,
            content: self.content@,
            header: self.header@,
            hash: self.hash@,
            hash_string: self.hash_string@,
        }
    }
}

impl BlobView {
    /// The bytes that are hashed and stored: the header, then the content.
    pub open spec fn frame(self) -> Seq<u8> {
        self.header + self.content
    }

    /// The header is a header for the object's kind and ends with its first
    /// zero byte, and the text of the digest is the digest's.
    pub open spec fn wf(self) -> bool {
        &&& frame_split(self.header) == Some((self.kind, self.header.len() as int))
        &&& self.hash.len() == 20
        &&& self.hash_string == hex_of(self.hash)
    }

    /// The header states the content's length, and the digest is that of
    /// the frame.
    pub open spec fn sealed(self) -> bool {
        &&& self.header == frame_header(self.kind, self.content.len())
        &&& self.hash == sha1_of(self.frame())
    }
}

/// The object of the given kind and content.
pub open spec fn object(kind: EntryType, content: Seq<u8>) -> BlobView {
    BlobView {
        kind,
        content,
        header: frame_header(kind, content.len()),
        hash: sha1_of(framed(kind, content)),
        hash_string: hex_of(sha1_of(framed(kind, content))),
    }
}

/// The object that the file `file`, stored under the digest with the text
/// `sha`, holds. Text that is no digest is an invalid argument; a file
/// that does not decompress to a frame is corrupt. The digest is taken
/// from `sha` and not held against the file.
pub open spec fn loaded(sha: Seq<char>, file: Seq<u8>) -> Result<BlobView, Error> {
    match digest_of_hex(sha) {
        None => Err(Error::InvalidArgument),
        Some(hash) => match zlib_inflated(file) {
            None => Err(Error::Corrupt),
            Some(bytes) => match frame_split(bytes) {
                None => Err(Error::Corrupt),
                Some((kind, start)) => Ok(
                    BlobView {
                        kind,
                        content: bytes.subrange(start, bytes.len() as int),
                        header: bytes.subrange(0, start),
                        hash,
                        hash_string: hex_of(hash),
                    },
                ),
            },
        },
    }
}

/// An object that was made of a kind and content is well formed and
/// sealed.
pub proof fn lemma_object_wf(kind: EntryType, content: Seq<u8>)
    ensures
        sha1_of(framed(kind, content)).len() == 20 ==> object(kind, content).wf(),
        object(kind, content).sealed(),
{
    lemma_frame_split(kind, content);
    let head = frame_header(kind, content.len());
    assert forall|j: int| 0 <= j < head.len() implies head[j] == framed(kind, content)[j] by {}
    lemma_frame_split_agree(framed(kind, content), head);
}

/// What was stored of a well-formed object loads as that object: a file
/// that decompresses to the object's frame, read under the text of the
/// object's digest, gives the object back.
pub proof fn lemma_load_stored(blob: BlobView, file: Seq<u8>)
    requires
        blob.wf(),
    ensures
        zlib_inflated(file) == Some(blob.frame()) ==> loaded(blob.hash_string, file) == Ok::<
            BlobView,
            Error,
        >(blob),
{
    lemma_from_hex_to_hex(blob.hash);
    let bytes = blob.frame();
    let start = blob.header.len() as int;
    assert forall|j: int| 0 <= j < start implies bytes[j] == blob.header[j] by {}
    lemma_frame_split_agree(blob.header, bytes);
    assert(bytes.subrange(0, start) =~= blob.header);
    assert(bytes.subrange(start, bytes.len() as int) =~= blob.content);
}

impl Blob {
    /// The object of the given kind with the given content.
    pub fn new(kind: EntryType, content: Vec<u8>) -> (blob: Blob)
        ensures
            blob@ == object(kind, content@),
            blob@.wf(),
            blob@.sealed(),
    {
        let header = header(kind, content.len());
        let hash = Self::hash(&header, &content);
        let hash_string = Self::string_hash(hash.as_slice());
        proof {
            assert(header@ + content@ == framed(kind, content@));
            lemma_object_wf(kind, content@);
        }
        Blob { kind, content, header, hash, hash_string }
    }

    /// The data blob with the given content.
    pub fn from_vec(content: Vec<u8>) -> (blob: Blob)
        ensures
            blob@ == object(EntryType::Blob, content@),
            blob@.wf(),
            blob@.sealed(),
    {
        Self::new(EntryType::Blob, content)
    }

    /// The data blob whose content is the text's bytes.
    pub fn from_string(file_content: String) -> (blob: Blob)
        ensures
            blob@ == object(EntryType::Blob, vstd::utf8::encode_utf8(file_content@)),
            blob@.wf(),
            blob@.sealed(),
    {
        Self::from_vec(file_content.as_str().as_bytes_vec())
    }

    /// The object that a stored file holds: `sha` is the text of the
    /// digest under which the file was found, `file_content` its bytes.
    pub fn from_sha(sha: &String, file_content: &[u8]) -> (r: Result<Blob, Error>)
        ensures
            match r {
                Ok(blob) => loaded(sha@, file_content@) == Ok::<BlobView, Error>(blob@)
                    && blob@.wf(),
                Err(e) => loaded(sha@, file_content@) == Err::<BlobView, Error>(e),
            },
    {
        let hash = match from_hex(sha.as_str()) {
            Ok(hash) => hash,
            Err(e) => { return Err(e); },
        };
        let bytes = match decompress(file_content) {
            Ok(bytes) => bytes,
            Err(e) => { return Err(e); },
        };
        let (kind, start) = match split_frame(bytes.as_slice()) {
            Ok(found) => found,
            Err(e) => { return Err(e); },
        };
        let header = slice_to_vec(slice_subrange(bytes.as_slice(), 0, start));
        let content = slice_to_vec(slice_subrange(bytes.as_slice(), start, bytes.len()));
        let hash_string = to_hex(&hash);
        proof {
            assert forall|j: int| 0 <= j < start implies header@[j] == bytes@[j] by {}
            lemma_frame_split_agree(bytes@, header@);
        }
        Ok(Blob { kind, content, header, hash, hash_string })
    }

    /// The header of a data blob with this content.
    pub fn header(content: &Vec<u8>) -> (out: Vec<u8>)
        ensures
            out@ == frame_header(EntryType::Blob, content@.len()),
    {
        header(EntryType::Blob, content.len())
    }

    /// The digest of the frame that `header` and `content` make.
    pub fn hash(header: &Vec<u8>, content: &Vec<u8>) -> (out: [u8; 20])
        ensures
            out@ == sha1_of(header@ + content@),
    {
        let mut bytes: Vec<u8> = Vec::new();
        append_bytes(&mut bytes, header.as_slice());
        append_bytes(&mut bytes, content.as_slice());
        assert(bytes@ =~= header@ + content@);
        digest(bytes.as_slice())
    }

    /// A digest, or any bytes, as lower-case hexadecimal text.
    pub fn string_hash(hash: &[u8]) -> (text: String)
        ensures
            text@ == hex_of(hash@),
    {
        encode_hex(hash)
    }

    /// The bytes that hexadecimal text stands for.
    pub fn decode_hex(s: &str) -> (r: Result<Vec<u8>, Error>)
        ensures
            is_hex(s@) ==> (r matches Ok(v) && v@ == unhex(s@)),
            !is_hex(s@) ==> r == Err::<Vec<u8>, Error>(Error::InvalidArgument),
    {
        decode_hex(s)
    }

    /// The bytes to store for the object: its frame, compressed.
    pub fn compress(&self) -> (r: Result<Vec<u8>, Error>)
        ensures
            match r {
                Ok(stream) => compressed(self@.frame()) == Ok::<Seq<u8>, Error>(stream@)
                    && zlib_inflated(stream@) == Some(self@.frame()),
                Err(e) => compressed(self@.frame()) == Err::<Seq<u8>, Error>(e),
            },
    {
        let mut bytes: Vec<u8> = Vec::new();
        append_bytes(&mut bytes, self.header.as_slice());
        append_bytes(&mut bytes, self.content.as_slice());
        assert(bytes@ =~= self@.frame());
        compress(bytes.as_slice())
    }

    /// The directory of the store that holds the object: the first two
    /// digits of its digest's text.
    pub fn dir(&self) -> (name: String)
        ensures
            name@ == dir_of(self.hash@),
    {
        locate(&self.hash).dir
    }

    /// The file that holds the object within its directory: the other
    /// thirty-eight digits of its digest's text.
    pub fn filename(&self) -> (name: String)
        ensures
            name@ == file_of(self.hash@),
    {
        locate(&self.hash).file
    }
}

} // verus!
