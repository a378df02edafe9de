use crate::bytes::{append_bytes, find_byte, first_at, lemma_first_at, lemma_first_at_is};
use crate::error::Error;
use vstd::prelude::*;
use vstd::slice::{slice_subrange, slice_to_vec};

verus! {

/// The kind of an object: a file's content, or a directory listing. An
/// entry of a listing carries the kind of the object that it names.
#[derive(Debug, Clone, Copy, PartialEq, Eq, Structural)]
pub enum EntryType {
    Blob,
    Tree,
}

/// The name under which a kind stands in a frame: `blob` or `tree`.
pub open spec fn kind_name(kind: EntryType) -> Seq<u8> {
    match kind {
        EntryType::Blob => seq![98u8, 108u8, 111u8, 98u8],
        EntryType::Tree => seq![116u8, 114u8, 101u8, 101u8],
    }
}

/// The kind that a name stands for, if it is the name of a kind.
pub open spec fn kind_named(name: Seq<u8>) -> Option<EntryType> {
    if name == kind_name(EntryType::Blob) {
        Some(EntryType::Blob)
    } else if name == kind_name(EntryType::Tree) {
        Some(EntryType::Tree)
    } else {
        None
    }
}

/// `n` in decimal digits, without leading zeros.
pub open spec fn decimal(n: nat) -> Seq<u8>
    decreases n,
{
    if n < 10 {
        seq![(48 + n) as u8]
    } else {
        decimal(n / 10).push((48 + n % 10) as u8)
    }
}

/// The header of a frame: the kind's name, a space, the content's length
/// in decimal, and a zero byte.
pub open spec fn frame_header(kind: EntryType, len: nat) -> Seq<u8> {
    kind_name(kind) + seq![32u8] + decimal(len) + seq![0u8]
}

/// An object as it is hashed and stored: the header, then the content.
pub open spec fn framed(kind: EntryType, content: Seq<u8>) -> Seq<u8> {
    frame_header(kind, content.len()) + content
}

/// Where the header of a frame ends: the kind before the first space, and
/// the place behind the first zero byte that follows that space. `None`
/// where the space or the zero byte is missing, or the kind is unknown.
pub open spec fn frame_split(bytes: Seq<u8>) -> Option<(EntryType, int)> {
    match first_at(bytes, 32u8, 0) {
        None => None,
        Some(space) => match first_at(bytes, 0u8, space + 1) {
            None => None,
            Some(zero) => match kind_named(bytes.subrange(0, space)) {
                None => None,
                Some(kind) => Some((kind, zero + 1)),
            },
        },
    }
}

/// The kind and the content of a framed object.
pub open spec fn unframed(bytes: Seq<u8>) -> Option<(EntryType, Seq<u8>)> {
    match frame_split(bytes) {
        None => None,
        Some((kind, start)) => Some((kind, bytes.subrange(start, bytes.len() as int))),
    }
}

/// Decimal digits are digits: at least one, and none of them a space or a
/// zero byte.
pub proof fn lemma_decimal_digits(n: nat)
    ensures
        decimal(n).len() >= 1,
        forall|i: int| 0 <= i < decimal(n).len() ==> 48 <= #[trigger] decimal(n)[i] <= 57,
    decreases n,
{
    if n >= 10 {
        lemma_decimal_digits(n / 10);
    }
}

/// The header of a frame splits where it was put together.
pub proof fn lemma_frame_split(kind: EntryType, content: Seq<u8>)
    ensures
        frame_split(framed(kind, content)) == Some(
            (kind, frame_header(kind, content.len()).len() as int),
        ),
{
    let digits = decimal(content.len());
    let bytes = framed(kind, content);
    lemma_decimal_digits(content.len());
    assert(kind_name(kind).len() == 4);
    assert(forall|j: int| 0 <= j < 4 ==> bytes[j] == kind_name(kind)[j]);
    assert(bytes[4] == 32u8);
    lemma_first_at_is(bytes, 32u8, 0, 4);
    let zero = 5 + digits.len() as int;
    assert forall|j: int| 5 <= j < zero implies bytes[j] != 0u8 by {
        assert(bytes[j] == digits[j - 5]);
    }
    assert(bytes[zero] == 0u8);
    lemma_first_at_is(bytes, 0u8, 5, zero);
    assert(bytes.subrange(0, 4) =~= kind_name(kind));
}

/// Where the header ends depends on the header alone: bytes that agree
/// with `bytes` up to the end of its header split in the same way.
pub proof fn lemma_frame_split_agree(bytes: Seq<u8>, other: Seq<u8>)
    requires
        frame_split(bytes) is Some,
        other.len() >= frame_split(bytes).unwrap().1,
        forall|j: int| 0 <= j < frame_split(bytes).unwrap().1 ==> other[j] == bytes[j],
    ensures
        frame_split(other) == frame_split(bytes),
        0 < frame_split(bytes).unwrap().1 <= bytes.len(),
{
    lemma_first_at(bytes, 32u8, 0);
    let space = first_at(bytes, 32u8, 0).unwrap();
    lemma_first_at(bytes, 0u8, space + 1);
    let zero = first_at(bytes, 0u8, space + 1).unwrap();
    lemma_first_at_is(other, 32u8, 0, space);
    lemma_first_at_is(other, 0u8, space + 1, zero);
    assert(other.subrange(0, space) =~= bytes.subrange(0, space));
}

/// Taking a frame apart gives back the kind and the content that it was
/// made of.
pub proof fn lemma_unframe_frame(kind: EntryType, content: Seq<u8>)
    ensures
        unframed(framed(kind, content)) == Some((kind, content)),
{
    lemma_frame_split(kind, content);
    let bytes = framed(kind, content);
    let start = frame_header(kind, content.len()).len() as int;
    assert(bytes.subrange(start, bytes.len() as int) =~= content);
}

impl EntryType {
    /// The kind that `name` names. An unknown name is an invalid argument.
    pub fn from_name(name: &[u8]) -> (r: Result<EntryType, Error>)
        ensures
            r == match kind_named(name@) {
                Some(kind) => Ok::<EntryType, Error>(kind),
                None => Err(Error::InvalidArgument),
            },
    {
        if name.len() == 4 && name[0] == 98 && name[1] == 108 && name[2] == 111 && name[3] == 98 {
            assert(name@ =~= kind_name(EntryType::Blob));
            Ok(EntryType::Blob)
        } else if name.len() == 4 && name[0] == 116 && name[1] == 114 && name[2] == 101 && name[3]
            == 101 {
            assert(name@ =~= kind_name(EntryType::Tree));
            Ok(EntryType::Tree)
        } else {
            Err(Error::InvalidArgument)
        }
    }

    /// Appends the kind's name to `out`.
    fn push_name(self, out: &mut Vec<u8>)
        ensures
            final(out)@ == old(out)@ + kind_name(self),
    {
        match self {
            EntryType::Blob => {
                out.push(98);
                out.push(108);
                out.push(111);
                out.push(98);
            },
            EntryType::Tree => {
                out.push(116);
                out.push(114);
                out.push(101);
                out.push(101);
            },
        }
        assert(out@ =~= old(out)@ + kind_name(self));
    }
}

/// Appends `n` in decimal to `out`.
fn push_decimal(out: &mut Vec<u8>, n: usize)
    ensures
        final(out)@ == old(out)@ + decimal(n as nat),
    decreases n,
{
    if n >= 10 {
        push_decimal(out, n / 10);
    }
    let digit: u8 = 48 + (n % 10) as u8;
    out.push(digit);
    assert(out@ =~= old(out)@ + decimal(n as nat));
}

/// The header for content of `len` bytes of the given kind.
pub fn header(kind: EntryType, len: usize) -> (out: Vec<u8>)
    ensures
        out@ == frame_header(kind, len as nat),
{
    let mut out: Vec<u8> = Vec::new();
    kind.push_name(&mut out);
    out.push(32);
    push_decimal(&mut out, len);
    out.push(0);
    assert(out@ =~= frame_header(kind, len as nat));
    out
}

/// Frames `content`: the header for its kind and length, then the content.
pub fn frame(kind: EntryType, content: &[u8]) -> (out: Vec<u8>)
    ensures
        out@ == framed(kind, content@),
{
    let mut out = header(kind, content.len());
    append_bytes(&mut out, content);
    out
}

/// Finds the end of the header in framed bytes: the kind, and where the
/// content starts. Bytes without the space, without the zero byte behind
/// it, or with an unknown kind are corrupt.
pub fn split_frame(bytes: &[u8]) -> (r: Result<(EntryType, usize), Error>)
    ensures
        match r {
            Ok((kind, start)) => frame_split(bytes@) == Some((kind, start as int)) && start
                <= bytes@.len(),
            Err(e) => frame_split(bytes@) is None && e == Error::Corrupt,
        },
{
    let space = match find_byte(bytes, 32, 0) {
        Some(i) => i,
        None => { return Err(Error::Corrupt); },
    };
    let zero = match find_byte(bytes, 0, space + 1) {
        Some(i) => i,
        None => { return Err(Error::Corrupt); },
    };
    match EntryType::from_name(slice_subrange(bytes, 0, space)) {
        Ok(kind) => Ok((kind, zero + 1)),
        Err(_) => Err(Error::Corrupt),
    }
}

/// Takes a frame apart into its kind and its content. The length that the
/// header states is not read.
pub fn unframe(bytes: &[u8]) -> (r: Result<(EntryType, Vec<u8>), Error>)
    ensures
        match r {
            Ok((kind, content)) => unframed(bytes@) == Some((kind, content@)),
            Err(e) => unframed(bytes@) is None && e == Error::Corrupt,
        },
{
    match split_frame(bytes) {
        Ok((kind, start)) => {
            let content = slice_to_vec(slice_subrange(bytes, start, bytes.len()));
            Ok((kind, content))
        },
        Err(e) => Err(e),
    }
}

} // verus!
