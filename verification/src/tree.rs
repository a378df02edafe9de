use crate::blob::Blob;
use crate::bytes::{find_byte, first_at, lemma_first_at, lemma_first_at_is, twenty_at};
use crate::error::Error;
use crate::frame::EntryType;
use vstd::prelude::*;
use vstd::slice::{slice_subrange, slice_to_vec};
use vstd::string::*;

verus! {

/// The failure of reading an object as a directory listing when it is of
/// another kind.
#[derive(Debug, Clone)]
pub struct NotATreeObject;

/// One entry of a directory listing: the mode and the name as they stand
/// in the listing, the digest of the object that the entry names, and that
/// object's kind, which the mode decides.
#[derive(Debug, Clone)]
pub struct TreeEntry {
    pub mode: Vec<u8>,
    pub entry_type: EntryType,
    pub sha: [u8; 20],
    pub name: Vec<u8>,
}

/// An entry as plain values.
pub struct EntryView {
    pub mode: Seq<u8>,
    pub entry_type: EntryType,
    pub sha: Seq<u8>,
    pub name: Seq<u8>,
}

impl View for TreeEntry {
    type V = EntryView;

    open spec fn view(&self) -> EntryView {
        EntryView {
            mode: self.mode@,
            entry_type: self.entry_type,
            sha: self.sha@,
            name: self.name@,
        }
    }
}

/// A directory listing: its entries in the order in which they are stored.
pub struct Tree {
    pub entries: Vec<TreeEntry>,
}

/// The entries as plain values, in their order.
pub open spec fn entry_views(entries: Seq<TreeEntry>) -> Seq<EntryView> {
    Seq::new(entries.len(), |i: int| entries[i]@)
}

impl View for Tree {
    type V = Seq<EntryView>;

    open spec fn view(&self) -> Seq<EntryView> {
        entry_views(self.entries@)
    }
}

/// The mode that marks a directory: `40000`.
pub open spec fn tree_mode() -> Seq<u8> {
    seq![52u8, 48u8, 48u8, 48u8, 48u8]
}

/// The kind of the object that an entry with this mode names: a directory
/// listing for the directory's mode, a data blob for every other mode.
pub open spec fn mode_kind(mode: Seq<u8>) -> EntryType {
    if mode == tree_mode() {
        EntryType::Tree
    } else {
        EntryType::Blob
    }
}

/// The entry that starts at `at`, and the place behind it: the mode runs
/// up to the next space, the name from there up to the next zero byte, and
/// the twenty bytes behind that are the digest. `None` where the space, the
/// zero byte or part of the digest is missing.
pub open spec fn entry_at(payload: Seq<u8>, at: int) -> Option<(EntryView, int)> {
    match first_at(payload, 32u8, at) {
        None => None,
        Some(space) => match first_at(payload, 0u8, space + 1) {
            None => None,
            Some(zero) => if zero + 21 > payload.len() {
                None
            } else {
                let mode = payload.subrange(at, space);
                Some(
                    (
                        EntryView {
                            mode,
                            entry_type: mode_kind(mode),
                            sha: payload.subrange(zero + 1, zero + 21),
                            name: payload.subrange(space + 1, zero),
                        },
                        zero + 21,
                    ),
                )
            },
        },
    }
}

/// The entries that stand back to back from `at` to the end of the
/// payload, `None` where one of them is cut short.
pub open spec fn entries_from(payload: Seq<u8>, at: int) -> Option<Seq<EntryView>>
    decreases payload.len() - at,
    via entries_from_decreases
{
    if at >= payload.len() {
        Some(Seq::empty())
    } else {
        match entry_at(payload, at) {
            None => None,
            Some((entry, next)) => match entries_from(payload, next) {
                None => None,
                Some(rest) => Some(seq![entry] + rest),
            },
        }
    }
}

#[via_fn]
proof fn entries_from_decreases(payload: Seq<u8>, at: int) {
    if at < payload.len() && entry_at(payload, at) is Some {
        lemma_entry_at(payload, at);
    }
}

/// An entry lies within the payload and ends behind the place where it
/// starts.
pub proof fn lemma_entry_at(payload: Seq<u8>, at: int)
    requires
        entry_at(payload, at) is Some,
    ensures
        0 <= at,
        at + 22 <= entry_at(payload, at).unwrap().1 <= payload.len(),
{
    lemma_first_at(payload, 32u8, at);
    let space = first_at(payload, 32u8, at).unwrap();
    lemma_first_at(payload, 0u8, space + 1);
}

/// The entries of a directory listing, `None` for a payload that breaks
/// the grammar.
pub open spec fn listing(payload: Seq<u8>) -> Option<Seq<EntryView>> {
    entries_from(payload, 0)
}

/// An empty payload is the listing without entries.
pub proof fn lemma_listing_empty()
    ensures
        listing(Seq::<u8>::empty()) == Some(Seq::<EntryView>::empty()),
{
}

/// The entries already read, before those still to come.
spec fn joined(done: Seq<EntryView>, rest: Option<Seq<EntryView>>) -> Option<Seq<EntryView>> {
    match rest {
        None => None,
        Some(rest) => Some(done + rest),
    }
}

/// The bytes of one entry in a listing: the mode, a space, the name, a
/// zero byte, and the digest.
pub open spec fn entry_bytes(entry: EntryView) -> Seq<u8> {
    entry.mode + seq![32u8] + entry.name + seq![0u8] + entry.sha
}

/// The payload that holds the entries back to back.
pub open spec fn listing_bytes(entries: Seq<EntryView>) -> Seq<u8>
    decreases entries.len(),
{
    if entries.len() == 0 {
        Seq::empty()
    } else {
        entry_bytes(entries[0]) + listing_bytes(entries.drop_first())
    }
}

/// An entry that a listing can hold: no space in the mode, no zero byte in
/// the name, a digest of twenty bytes, and the kind that the mode decides.
pub open spec fn entry_fits(entry: EntryView) -> bool {
    &&& forall|j: int| 0 <= j < entry.mode.len() ==> entry.mode[j] != 32u8
    &&& forall|j: int| 0 <= j < entry.name.len() ==> entry.name[j] != 0u8
    &&& entry.sha.len() == 20
    &&& entry.entry_type == mode_kind(entry.mode)
}

/// Where the bytes of an entry stand at `at`, the entry is read there, and
/// reading goes on behind it.
proof fn lemma_entry_read(payload: Seq<u8>, at: int, entry: EntryView)
    requires
        0 <= at,
        entry_fits(entry),
        at + entry_bytes(entry).len() <= payload.len(),
        payload.subrange(at, at + entry_bytes(entry).len()) == entry_bytes(entry),
    ensures
        entry_at(payload, at) == Some((entry, at + entry_bytes(entry).len())),
{
    let bytes = entry_bytes(entry);
    let space = at + entry.mode.len();
    let zero = space + 1 + entry.name.len();
    assert forall|j: int| 0 <= j < bytes.len() implies payload[at + j] == bytes[j] by {
        assert(payload.subrange(at, at + bytes.len())[j] == payload[at + j]);
    }
    assert forall|j: int| at <= j < space implies payload[j] != 32u8 by {
        assert(payload[j] == bytes[j - at]);
        assert(bytes[j - at] == entry.mode[j - at]);
    }
    assert(payload[space] == bytes[space - at]);
    lemma_first_at_is(payload, 32u8, at, space);
    assert forall|j: int| space + 1 <= j < zero implies payload[j] != 0u8 by {
        assert(payload[j] == bytes[j - at]);
        assert(bytes[j - at] == entry.name[j - space - 1]);
    }
    assert(payload[zero] == bytes[zero - at]);
    lemma_first_at_is(payload, 0u8, space + 1, zero);
    assert(payload.subrange(at, space) =~= entry.mode);
    assert forall|j: int| 0 <= j < entry.name.len() implies payload[space + 1 + j]
        == entry.name[j] by {
        assert(payload[space + 1 + j] == bytes[space + 1 + j - at]);
    }
    assert(payload.subrange(space + 1, zero) =~= entry.name);
    assert forall|j: int| 0 <= j < 20 implies payload[zero + 1 + j] == entry.sha[j] by {
        assert(payload[zero + 1 + j] == bytes[zero + 1 + j - at]);
    }
    assert(payload.subrange(zero + 1, zero + 21) =~= entry.sha);
}

/// Where the bytes of `entries` stand at `at`, they are read one after the
/// other, and reading goes on behind them.
proof fn lemma_entries_read(payload: Seq<u8>, at: int, entries: Seq<EntryView>)
    requires
        0 <= at,
        forall|i: int| 0 <= i < entries.len() ==> entry_fits(#[trigger] entries[i]),
        at + listing_bytes(entries).len() <= payload.len(),
        payload.subrange(at, at + listing_bytes(entries).len()) == listing_bytes(entries),
    ensures
        entries_from(payload, at) == joined(
            entries,
            entries_from(payload, at + listing_bytes(entries).len()),
        ),
    decreases entries.len(),
{
    let behind = at + listing_bytes(entries).len();
    if entries.len() == 0 {
        match entries_from(payload, at) {
            Some(rest) => {
                assert(entries + rest =~= rest);
            },
            None => {},
        }
    } else {
        let first = entries[0];
        let others = entries.drop_first();
        let next = at + entry_bytes(first).len();
        let all = listing_bytes(entries);
        assert(payload.subrange(at, next) =~= all.subrange(0, entry_bytes(first).len() as int));
        assert(all.subrange(0, entry_bytes(first).len() as int) =~= entry_bytes(first));
        lemma_entry_read(payload, at, first);
        assert(payload.subrange(next, behind) =~= all.subrange(
            entry_bytes(first).len() as int,
            all.len() as int,
        ));
        assert(all.subrange(entry_bytes(first).len() as int, all.len() as int) =~= listing_bytes(
            others,
        ));
        lemma_entries_read(payload, next, others);
        match entries_from(payload, behind) {
            Some(rest) => {
                assert(seq![first] + (others + rest) =~= entries + rest);
            },
            None => {},
        }
    }
}

/// The payload that holds entries back to back is read as those entries,
/// in their order.
pub proof fn lemma_listing_of_bytes(entries: Seq<EntryView>)
    requires
        forall|i: int| 0 <= i < entries.len() ==> entry_fits(#[trigger] entries[i]),
    ensures
        listing(listing_bytes(entries)) == Some(entries),
{
    let payload = listing_bytes(entries);
    assert(payload.subrange(0, payload.len() as int) =~= payload);
    lemma_entries_read(payload, 0, entries);
    assert(entries + Seq::<EntryView>::empty() =~= entries);
}

/// A payload that ends within an entry is malformed, wherever the cut
/// falls: in the mode, in the name, or in the digest.
pub proof fn lemma_cut_listing(entries: Seq<EntryView>, last: EntryView, keep: int)
    requires
        forall|i: int| 0 <= i < entries.len() ==> entry_fits(#[trigger] entries[i]),
        entry_fits(last),
        0 < keep < entry_bytes(last).len(),
    ensures
        listing(listing_bytes(entries) + entry_bytes(last).take(keep)) is None,
{
    let whole = listing_bytes(entries);
    let cut = entry_bytes(last).take(keep);
    let payload = whole + cut;
    let at = whole.len() as int;
    assert(payload.subrange(0, at) =~= whole);
    lemma_entries_read(payload, 0, entries);
    let space = at + last.mode.len();
    let zero = space + 1 + last.name.len();
    assert forall|j: int| at <= j < payload.len() implies payload[j] == entry_bytes(last)[j
        - at] by {
        assert(payload[j] == cut[j - at]);
    }
    lemma_first_at(payload, 32u8, at);
    match first_at(payload, 32u8, at) {
        Some(found) => {
            if found < space {
                assert(payload[found] == last.mode[found - at]);
            } else if found > space {
                assert(payload[space] == 32u8);
            } else {
                lemma_first_at(payload, 0u8, space + 1);
                match first_at(payload, 0u8, space + 1) {
                    Some(end) => {
                        if end < zero {
                            assert(payload[end] == last.name[end - space - 1]);
                        } else if end > zero {
                            assert(payload[zero] == 0u8);
                        }
                    },
                    None => {},
                }
            }
        },
        None => {},
    }
    assert(entry_at(payload, at) is None);
}

/// Whether `mode` is the directory's mode.
fn is_tree_mode(mode: &[u8]) -> (r: bool)
    ensures
        r == (mode@ == tree_mode()),
{
    if mode.len() == 5 && mode[0] == 52 && mode[1] == 48 && mode[2] == 48 && mode[3] == 48
        && mode[4] == 48 {
        assert(mode@ =~= tree_mode());
        true
    } else {
        false
    }
}

impl NotATreeObject {
    /// The failure in words.
    pub fn message(&self) -> (text: String)
        ensures
            text@ == "content doesn't have the 'tree' header."@,
    {
        String::from_str("content doesn't have the 'tree' header.")
    }

    /// The failure as an error of the store: the object named is no valid
    /// argument where a directory listing is asked for.
    pub fn error(&self) -> (e: Error)
        ensures
            e == Error::InvalidArgument,
    {
        Error::InvalidArgument
    }
}

impl Tree {
    /// Reads the payload of a directory listing: its entries in the order
    /// in which they stand. An empty payload has no entries; a payload
    /// that ends within an entry is malformed.
    pub fn decode(payload: &[u8]) -> (r: Result<Tree, Error>)
        ensures
            match r {
                Ok(tree) => listing(payload@) == Some(tree@),
                Err(e) => listing(payload@) is None && e == Error::Malformed,
            },
    {
        let mut entries: Vec<TreeEntry> = Vec::new();
        let mut at: usize = 0;
        proof {
            match entries_from(payload@, 0) {
                Some(rest) => {
                    assert(entry_views(entries@) + rest =~= rest);
                },
                None => {},
            }
        }
        while at < payload.len()
            invariant
                at <= payload@.len(),
                listing(payload@) == joined(
                    entry_views(entries@),
                    entries_from(payload@, at as int),
                ),
            decreases payload.len() - at,
        {
            let space = match find_byte(payload, 32, at) {
                Some(i) => i,
                None => { return Err(Error::Malformed); },
            };
            let zero = match find_byte(payload, 0, space + 1) {
                Some(i) => i,
                None => { return Err(Error::Malformed); },
            };
            if payload.len() - zero < 21 {
                return Err(Error::Malformed);
            }
            let mode = slice_to_vec(slice_subrange(payload, at, space));
            let name = slice_to_vec(slice_subrange(payload, space + 1, zero));
            let sha = twenty_at(payload, zero + 1);
            let entry_type = if is_tree_mode(mode.as_slice()) {
                EntryType::Tree
            } else {
                EntryType::Blob
            };
            let entry = TreeEntry { mode, entry_type, sha, name };
            proof {
                let done = entry_views(entries@);
                let next = zero + 21;
                assert(entry_at(payload@, at as int) == Some((entry@, next)));
                assert(entry_views(entries@.push(entry)) =~= done.push(entry@));
                match entries_from(payload@, next) {
                    Some(rest) => {
                        assert(done + (seq![entry@] + rest) =~= done.push(entry@) + rest);
                    },
                    None => {},
                }
            }
            entries.push(entry);
            at = zero + 21;
        }
        assert(entry_views(entries@) + Seq::<EntryView>::empty() =~= entry_views(entries@));
        Ok(Tree { entries })
    }

    /// Tells whether the object is a directory listing.
    pub fn check(blob: &Blob) -> (r: Result<(), NotATreeObject>)
        ensures
            r is Ok <==> blob.kind == EntryType::Tree,
    {
        match blob.kind {
            EntryType::Tree => Ok(()),
            EntryType::Blob => Err(NotATreeObject),
        }
    }

    /// Reads an object as a directory listing. An object of another kind
    /// is an invalid argument; a listing that breaks the grammar is
    /// malformed.
    pub fn try_pars(blob: &Blob) -> (r: Result<Tree, Error>)
        ensures
            r matches Ok(tree) ==> blob.kind == EntryType::Tree && listing(blob.content@) == Some(
                tree@,
            ),
            r matches Err(e) ==> e == (if blob.kind != EntryType::Tree {
                Error::InvalidArgument
            } else {
                Error::Malformed
            }) && (blob.kind != EntryType::Tree || listing(blob.content@) is None),
    {
        match Self::check(blob) {
            Ok(()) => Self::decode(blob.content.as_slice()),
            Err(not_a_tree) => Err(not_a_tree.error()),
        }
    }
}

} // verus!
