//! Raft log entries as plain values, and their encoding as protobuf messages, which the
//! `raft` crate defines and `protobuf` writes and reads.

use vstd::prelude::*;
use protobuf::Message;
use raft::eraftpb;

verus! {

/// What an entry asks the state machine to do.
#[derive(Clone, Copy, Debug, PartialEq, Eq, Structural)]
pub enum EntryType {
    EntryNormal,
    EntryConfChange,
    EntryConfChangeV2,
}

/// One record of the log of a Raft group.
#[derive(Clone, Debug, PartialEq, Eq)]
pub struct Entry {
    pub entry_type: EntryType,
    pub term: u64,
    pub index: u64,
    pub data: Vec<u8>,
    pub context: Vec<u8>,
    pub sync_log: bool,
}

/// One record of the log of a Raft group, as a mathematical value.
pub struct EntryView {
    pub entry_type: EntryType,
    pub term: u64,
    pub index: u64,
    pub data: Seq<u8>,
    pub context: Seq<u8>,
    pub sync_log: bool,
}

impl View for Entry {
    type V = EntryView;

    open spec fn view(&self) -> EntryView {
        EntryView {
            entry_type: self.entry_type,
            term: self.term,
            index: self.index,
            data: self.data@,
            context: self.context@,
            sync_log: self.sync_log,
        }
    }
}

/// The views of a row of entries.
pub open spec fn entry_views(entries: Seq<Entry>) -> Seq<EntryView> {
    Seq::new(entries.len(), |i: int| entries[i]@)
}

/// The most bytes that the data and the context of an entry may take together for the
/// entry to be written as a message: the length of a message is counted in 32 bits.
pub const MAX_ENTRY_PAYLOAD: usize = 0x7fff_0000;

/// Whether the data and the context of an entry are short enough for a message.
pub open spec fn fits_message(e: EntryView) -> bool {
    e.data.len() + e.context.len() <= MAX_ENTRY_PAYLOAD
}

impl Entry {
    /// Tells whether the data and the context of the entry are short enough for a
    /// message.
    pub fn fits_message(&self) -> (b: bool)
        ensures
            b == fits_message(self@),
    {
        self.data.len() <= MAX_ENTRY_PAYLOAD && self.context.len() <= MAX_ENTRY_PAYLOAD
            - self.data.len()
    }
}

/// The bytes of the protobuf message of an entry; none where the message cannot be
/// written.
pub uninterp spec fn entry_encoding(e: EntryView) -> Option<Seq<u8>>;

/// The entry that bytes spell as a protobuf message; none where they spell no entry.
pub uninterp spec fn entry_decoding(bytes: Seq<u8>) -> Option<EntryView>;

/// Writes an entry as the protobuf message `raft::eraftpb::Entry`, with
/// `Message::write_to_vec`: each field of the message is set from the entry, and the
/// bytes written depend on those fields alone. Nothing comes back where writing fails.
/// The size of the message is summed up in 32 bits before it is written, so the entry
/// must be short enough for that sum.
#[verifier::external_body]
pub(crate) fn encode_entry(e: &Entry) -> (r: Option<Vec<u8>>)
    requires
        fits_message(e@),
    ensures
        match r {
            Some(bytes) => entry_encoding(e@) == Some(bytes@),
            None => entry_encoding(e@) is None,
        },
{
    let mut m = eraftpb::Entry::default();
    m.set_entry_type(match e.entry_type {
        EntryType::EntryNormal => eraftpb::EntryType::EntryNormal,
        EntryType::EntryConfChange => eraftpb::EntryType::EntryConfChange,
        EntryType::EntryConfChangeV2 => eraftpb::EntryType::EntryConfChangeV2,
    });
    m.set_term(e.term);
    m.set_index(e.index);
    m.set_data(e.data.clone().into());
    m.set_context(e.context.clone().into());
    m.set_sync_log(e.sync_log);
    let mut bytes = Vec::new();
    m.write_to_vec(&mut bytes).ok().map(|_| bytes)
}

/// Reads bytes as the protobuf message `raft::eraftpb::Entry`, with
/// `Message::merge_from_bytes` into an empty message, and copies the fields of the
/// message: the entry read depends on the bytes alone. Nothing comes back where the
/// bytes are no such message.
#[verifier::external_body]
pub(crate) fn decode_entry(bytes: &[u8]) -> (r: Option<Entry>)
    ensures
        match r {
            Some(e) => entry_decoding(bytes@) == Some(e@),
            None => entry_decoding(bytes@) is None,
        },
{
    let mut m = eraftpb::Entry::default();
    m.merge_from_bytes(bytes).ok()?;
    let entry_type = match m.get_entry_type() {
        eraftpb::EntryType::EntryNormal => EntryType::EntryNormal,
        eraftpb::EntryType::EntryConfChange => EntryType::EntryConfChange,
        eraftpb::EntryType::EntryConfChangeV2 => EntryType::EntryConfChangeV2,
    };
    let (term, index, sync_log) = (m.get_term(), m.get_index(), m.get_sync_log());
    let (data, context) = (m.get_data().to_vec(), m.get_context().to_vec());
    Some(Entry { entry_type, term, index, data, context, sync_log })
}

} // verus!
