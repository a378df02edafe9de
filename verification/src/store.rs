use crate::blob::Blob;
use crate::codec::{compressed, decompress, zlib_inflated};
use crate::digest::{digest_of_hex, from_hex, sha1_of};
use crate::error::Error;
use crate::frame::{framed, lemma_unframe_frame, unframe, unframed, EntryType};
use crate::hex::{encode_hex, hex_of, lemma_unhex_hex_of};
use crate::tree::{listing, EntryView, Tree};
use vstd::prelude::*;
use vstd::slice::slice_subrange;

verus! {

/// Where the store keeps an object, below its root: a directory, and a
/// file within it.
#[derive(Debug, Clone)]
pub struct Location {
    pub dir: String,
    pub file: String,
}

/// The directory for a digest: the first two digits of its text.
pub open spec fn dir_of(digest: Seq<u8>) -> Seq<char> {
    hex_of(digest).subrange(0, 2)
}

/// The file for a digest: the other thirty-eight digits of its text.
pub open spec fn file_of(digest: Seq<u8>) -> Seq<char> {
    hex_of(digest).subrange(2, 40)
}

/// Two digests with one location are one digest.
pub proof fn lemma_location_names_digest(a: Seq<u8>, b: Seq<u8>)
    requires
        a.len() == 20,
        b.len() == 20,
        dir_of(a) == dir_of(b),
        file_of(a) == file_of(b),
    ensures
        a == b,
{
    lemma_unhex_hex_of(a);
    lemma_unhex_hex_of(b);
    assert(hex_of(a) =~= dir_of(a) + file_of(a));
    assert(hex_of(b) =~= dir_of(b) + file_of(b));
}

/// The location of the object with the given digest.
pub fn locate(digest: &[u8; 20]) -> (location: Location)
    ensures
        location.dir@ == dir_of(digest@),
        location.file@ == file_of(digest@),
{
    let dir = encode_hex(slice_subrange(digest.as_slice(), 0, 1));
    let file = encode_hex(slice_subrange(digest.as_slice(), 1, 20));
    assert(dir@ =~= dir_of(digest@));
    assert(file@ =~= file_of(digest@));
    Location { dir, file }
}

/// The digest that a caller names by its text, and where its object is
/// kept. Text that is not forty hexadecimal digits is an invalid argument.
pub fn locate_hex(text: &str) -> (r: Result<([u8; 20], Location), Error>)
    ensures
        match r {
            Ok((digest, location)) => digest_of_hex(text@) == Some(digest@) && location.dir@
                == dir_of(digest@) && location.file@ == file_of(digest@),
            Err(e) => digest_of_hex(text@) is None && e == Error::InvalidArgument,
        },
{
    match from_hex(text) {
        Ok(digest) => {
            let location = locate(&digest);
            Ok((digest, location))
        },
        Err(e) => Err(e),
    }
}

/// An object made ready for storing: its digest, its location, and the
/// bytes of its file.
pub struct Pending {
    pub digest: [u8; 20],
    pub location: Location,
    pub bytes: Vec<u8>,
}

/// What a stored file holds: the kind and content of the frame that it
/// decompresses to. A file that does not decompress, or not to a frame, is
/// corrupt.
pub open spec fn decoded(file: Seq<u8>) -> Result<(EntryType, Seq<u8>), Error> {
    match zlib_inflated(file) {
        None => Err(Error::Corrupt),
        Some(bytes) => match unframed(bytes) {
            None => Err(Error::Corrupt),
            Some(object) => Ok(object),
        },
    }
}

/// Makes an object ready for storing: frames the content, takes the
/// frame's digest, and compresses the frame. The file system is not
/// touched. Fails only where the encoder does, with an I/O failure.
pub fn prepare(kind: EntryType, content: Vec<u8>) -> (r: Result<Pending, Error>)
    ensures
        match r {
            Ok(pending) => {
                &&& pending.digest@ == sha1_of(framed(kind, content@))
                &&& pending.location.dir@ == dir_of(pending.digest@)
                &&& pending.location.file@ == file_of(pending.digest@)
                &&& compressed(framed(kind, content@)) == Ok::<Seq<u8>, Error>(pending.bytes@)
                &&& decoded(pending.bytes@) == Ok::<(EntryType, Seq<u8>), Error>((kind, content@))
            },
            Err(e) => compressed(framed(kind, content@)) == Err::<Seq<u8>, Error>(e),
        },
{
    let ghost plain = content@;
    let blob = Blob::new(kind, content);
    assert(blob@.frame() == framed(kind, plain));
    match blob.compress() {
        Ok(bytes) => {
            proof {
                lemma_unframe_frame(kind, plain);
            }
            let location = locate(&blob.hash);
            Ok(Pending { digest: blob.hash, location, bytes })
        },
        Err(e) => Err(e),
    }
}

/// What storing an object asks of the file system, one step after the
/// other, and how it ends.
#[derive(Debug, Clone, Copy, PartialEq, Eq, Structural)]
pub enum Step {
    /// Create the object's directory, with those above it.
    MakeDir,
    /// Create the object's file and write its bytes, unless the file is
    /// there.
    WriteFile,
    /// The object is stored.
    Stored,
    /// Storing failed.
    Failed,
}

/// What the file system answered to a step.
#[derive(Debug, Clone, Copy, PartialEq, Eq, Structural)]
pub enum Outcome {
    /// The step was carried out.
    Done,
    /// There was nothing to do: the directory or the file was there.
    Existed,
    /// The step failed for another reason.
    Failed,
}

/// The step that follows `step` after the answer `outcome`: the directory
/// first, then the file; what is there already is as good as made; a
/// failure ends the run. The two last steps follow themselves.
pub open spec fn step_after(step: Step, outcome: Outcome) -> Step {
    match step {
        Step::MakeDir => match outcome {
            Outcome::Failed => Step::Failed,
            _ => Step::WriteFile,
        },
        Step::WriteFile => match outcome {
            Outcome::Failed => Step::Failed,
            _ => Step::Stored,
        },
        Step::Stored => Step::Stored,
        Step::Failed => Step::Failed,
    }
}

/// Decides the next step of storing an object from the last step and the
/// file system's answer to it.
pub fn put_next(step: Step, outcome: Outcome) -> (next: Step)
    ensures
        next == step_after(step, outcome),
{
    match step {
        Step::MakeDir => match outcome {
            Outcome::Failed => Step::Failed,
            _ => Step::WriteFile,
        },
        Step::WriteFile => match outcome {
            Outcome::Failed => Step::Failed,
            _ => Step::Stored,
        },
        Step::Stored => Step::Stored,
        Step::Failed => Step::Failed,
    }
}

/// What storing an object returns when it ends with the step `last`: the
/// digest where the object is stored, an I/O failure in any other case.
pub open spec fn put_result(digest: Seq<u8>, last: Step) -> Result<Seq<u8>, Error> {
    match last {
        Step::Stored => Ok(digest),
        _ => Err(Error::IoFailure),
    }
}

/// Ends the storing of an object: with its digest, or an I/O failure.
pub fn put_finish(pending: Pending, last: Step) -> (r: Result<[u8; 20], Error>)
    ensures
        match r {
            Ok(digest) => put_result(pending.digest@, last) == Ok::<Seq<u8>, Error>(digest@),
            Err(e) => put_result(pending.digest@, last) == Err::<Seq<u8>, Error>(e),
        },
{
    match last {
        Step::Stored => Ok(pending.digest),
        _ => Err(Error::IoFailure),
    }
}

/// What reading an object's file gave.
#[derive(Debug, Clone)]
pub enum Fetched {
    /// There is no such file.
    Missing,
    /// The file is there and could not be read.
    Unreadable,
    /// The bytes of the file.
    Found(Vec<u8>),
}

/// What reading an object's file gave, as plain values.
pub enum FetchedView {
    Missing,
    Unreadable,
    Found(Seq<u8>),
}

impl View for Fetched {
    type V = FetchedView;

    open spec fn view(&self) -> FetchedView {
        match self {
            Fetched::Missing => FetchedView::Missing,
            Fetched::Unreadable => FetchedView::Unreadable,
            Fetched::Found(bytes) => FetchedView::Found(bytes@),
        }
    }
}

/// What `get` returns for what was read: the object that the file holds;
/// not found where there is no file; an I/O failure where it could not be
/// read.
pub open spec fn got(fetched: FetchedView) -> Result<(EntryType, Seq<u8>), Error> {
    match fetched {
        FetchedView::Missing => Err(Error::NotFound),
        FetchedView::Unreadable => Err(Error::IoFailure),
        FetchedView::Found(file) => decoded(file),
    }
}

/// What `get_tree` returns for what was read: the entries of the listing
/// that the file holds. An object of another kind is an invalid argument.
pub open spec fn got_tree(fetched: FetchedView) -> Result<Seq<EntryView>, Error> {
    match got(fetched) {
        Err(e) => Err(e),
        Ok((kind, content)) => if kind != EntryType::Tree {
            Err(Error::InvalidArgument)
        } else {
            match listing(content) {
                None => Err(Error::Malformed),
                Some(entries) => Ok(entries),
            }
        },
    }
}

/// Decompresses a stored file and takes its frame apart.
pub fn decode(file: &[u8]) -> (r: Result<(EntryType, Vec<u8>), Error>)
    ensures
        match r {
            Ok((kind, content)) => decoded(file@) == Ok::<(EntryType, Seq<u8>), Error>(
                (kind, content@),
            ),
            Err(e) => decoded(file@) == Err::<(EntryType, Seq<u8>), Error>(e),
        },
{
    match decompress(file) {
        Ok(bytes) => unframe(bytes.as_slice()),
        Err(e) => Err(e),
    }
}

/// The object that was asked for, from what reading its file gave.
pub fn get(fetched: Fetched) -> (r: Result<(EntryType, Vec<u8>), Error>)
    ensures
        match r {
            Ok((kind, content)) => got(fetched@) == Ok::<(EntryType, Seq<u8>), Error>(
                (kind, content@),
            ),
            Err(e) => got(fetched@) == Err::<(EntryType, Seq<u8>), Error>(e),
        },
{
    match fetched {
        Fetched::Missing => Err(Error::NotFound),
        Fetched::Unreadable => Err(Error::IoFailure),
        Fetched::Found(file) => decode(file.as_slice()),
    }
}

/// The directory listing that was asked for, from what reading its file
/// gave.
pub fn get_tree(fetched: Fetched) -> (r: Result<Tree, Error>)
    ensures
        match r {
            Ok(tree) => got_tree(fetched@) == Ok::<Seq<EntryView>, Error>(tree@),
            Err(e) => got_tree(fetched@) == Err::<Seq<EntryView>, Error>(e),
        },
{
    match get(fetched) {
        Ok((kind, content)) => match kind {
            EntryType::Tree => Tree::decode(content.as_slice()),
            EntryType::Blob => Err(Error::InvalidArgument),
        },
        Err(e) => Err(e),
    }
}

/// The files of a store: the bytes of the file under each digest.
pub type Files = Map<Seq<u8>, Seq<u8>>;

/// What reading the file under `digest` gives on files that can be read.
pub open spec fn fetched_from(files: Files, digest: Seq<u8>) -> FetchedView {
    if files.dom().contains(digest) {
        FetchedView::Found(files[digest])
    } else {
        FetchedView::Missing
    }
}

/// What `get` returns for `digest` on the given files.
pub open spec fn get_from(files: Files, digest: Seq<u8>) -> Result<(EntryType, Seq<u8>), Error> {
    got(fetched_from(files, digest))
}

/// The step `WriteFile` on the given files: a file that is there stays as
/// it is, and a new one holds `bytes`.
pub open spec fn write_file(files: Files, digest: Seq<u8>, bytes: Seq<u8>) -> (Files, Outcome) {
    if files.dom().contains(digest) {
        (files, Outcome::Existed)
    } else {
        (files.insert(digest, bytes), Outcome::Done)
    }
}

/// Storing an object on files that do not fail: the steps from the first
/// one on, each answered by the files, and what is returned at the end.
pub open spec fn put_on(files: Files, digest: Seq<u8>, bytes: Seq<u8>) -> (
    Files,
    Result<Seq<u8>, Error>,
) {
    let second = step_after(Step::MakeDir, Outcome::Done);
    let (after, outcome) = write_file(files, digest, bytes);
    let last = step_after(second, outcome);
    (after, put_result(digest, last))
}

/// Storing an object and then reading under its digest gives the object
/// back: its kind and its content. `bytes` are the object's file as
/// `prepare` makes it. This holds where the place was free, or held a file
/// of the same object; a file that is there is never replaced.
pub proof fn lemma_put_then_get(
    files: Files,
    kind: EntryType,
    content: Seq<u8>,
    digest: Seq<u8>,
    bytes: Seq<u8>,
)
    requires
        !files.dom().contains(digest) || decoded(files[digest]) == Ok::<
            (EntryType, Seq<u8>),
            Error,
        >((kind, content)),
        decoded(bytes) == Ok::<(EntryType, Seq<u8>), Error>((kind, content)),
    ensures
        put_on(files, digest, bytes).1 == Ok::<Seq<u8>, Error>(digest),
        get_from(put_on(files, digest, bytes).0, digest) == Ok::<(EntryType, Seq<u8>), Error>(
            (kind, content),
        ),
{
}

/// Storing the same object twice is storing it once: the second time the
/// same digest comes back, without an error, and the files stay as the
/// first time left them.
pub proof fn lemma_put_twice(files: Files, digest: Seq<u8>, bytes: Seq<u8>)
    ensures
        put_on(put_on(files, digest, bytes).0, digest, bytes) == put_on(files, digest, bytes),
        put_on(files, digest, bytes).1 == Ok::<Seq<u8>, Error>(digest),
{
}

/// Storing an object leaves every other object as it was.
pub proof fn lemma_put_keeps_others(files: Files, digest: Seq<u8>, bytes: Seq<u8>, other: Seq<u8>)
    requires
        other != digest,
    ensures
        get_from(put_on(files, digest, bytes).0, other) == get_from(files, other),
{
}

/// Reading under a digest that nothing was stored under finds nothing.
pub proof fn lemma_get_unwritten(files: Files, digest: Seq<u8>)
    requires
        !files.dom().contains(digest),
    ensures
        get_from(files, digest) == Err::<(EntryType, Seq<u8>), Error>(Error::NotFound),
{
}

} // verus!
