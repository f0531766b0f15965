use vstd::prelude::*;
use crate::permissions::Permissions;
use crate::users::UserStatus;

verus! {

/// What a metadata-log entry records.
#[derive(Debug)]
pub enum EntryCommand {
    CreateUser {
        username: String,
        password: String,
        status: UserStatus,
        permissions: Option<Permissions>,
    },
    DeleteUser { user_id: u32 },
    CreateTopic { stream_id: u32, topic_id: u32, partitions_count: u32 },
    UpdateTopic {
        stream_id: u32,
        topic_id: u32,
        message_expiry: Option<u32>,
        max_topic_size: Option<u64>,
    },
    DeleteTopic { stream_id: u32, topic_id: u32 },
    CreatePartitions { stream_id: u32, topic_id: u32, partitions_count: u32 },
}

/// One applied mutation and the user that made it (0 for the system itself).
#[derive(Debug)]
pub struct MetadataEntry {
    pub user_id: u32,
    pub command: EntryCommand,
}

/// The append-only sequence of applied mutations.
#[derive(Debug)]
pub struct MetadataLog {
    entries: Vec<MetadataEntry>,
}

impl MetadataLog {
    pub closed spec fn view(&self) -> Seq<MetadataEntry> {
        self.entries@
    }

    pub fn new() -> (r: MetadataLog)
        ensures
            r@.len() == 0,
    {
        MetadataLog { entries: Vec::new() }
    }

    /// Appends one entry.
    pub fn apply(&mut self, entry: MetadataEntry)
        ensures
            final(self)@ == old(self)@.push(entry),
    {
        self.entries.push(entry);
    }

    pub fn entries(&self) -> (r: &Vec<MetadataEntry>)
        ensures
            r@ == self@,
    {
        &self.entries
    }

    pub fn len(&self) -> (r: usize)
        ensures
            r == self@.len(),
    {
        self.entries.len()
    }
}

} // verus!
