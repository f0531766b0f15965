use vstd::prelude::*;
use crate::error::EngineError;

verus! {

/// Capabilities that hold for every stream.
#[derive(Clone, Copy, Debug, PartialEq, Eq, Structural)]
pub struct GlobalPermissions {
    pub manage_servers: bool,
    pub read_servers: bool,
    pub manage_users: bool,
    pub read_users: bool,
    pub manage_streams: bool,
    pub read_streams: bool,
    pub manage_topics: bool,
    pub read_topics: bool,
    pub poll_messages: bool,
    pub send_messages: bool,
}

/// Capabilities granted on one stream, on top of the global ones.
#[derive(Clone, Copy, Debug, PartialEq, Eq, Structural)]
pub struct StreamPermissions {
    pub stream_id: u32,
    pub manage_stream: bool,
    pub read_stream: bool,
    pub manage_topics: bool,
    pub read_topics: bool,
    pub poll_messages: bool,
    pub send_messages: bool,
}

/// A user's permission set: global bits plus per-stream overlays.
#[derive(Clone, Debug)]
pub struct Permissions {
    pub global: GlobalPermissions,
    pub streams: Vec<StreamPermissions>,
}

/// The operations that a caller must be allowed to perform.
#[derive(Clone, Copy, Debug, PartialEq, Eq, Structural)]
pub enum Operation {
    CreateUser,
    DeleteUser,
    UpdateUser,
    UpdatePermissions,
    ChangePassword,
    GetUser,
    GetUsers,
    CreateStream,
    CreateTopic,
    UpdateTopic,
    DeleteTopic,
    PurgeTopic,
    CreatePartitions,
    GetTopic,
    GetTopics,
    PollMessages,
    AppendMessages,
}

/// Whether the global bits allow `op`.
pub open spec fn global_allows(g: GlobalPermissions, op: Operation) -> bool {
    match op {
        Operation::CreateUser | Operation::DeleteUser | Operation::UpdateUser
        | Operation::UpdatePermissions | Operation::ChangePassword => g.manage_users,
        Operation::GetUser | Operation::GetUsers => g.manage_users || g.read_users,
        Operation::CreateStream => g.manage_streams,
        Operation::CreateTopic | Operation::UpdateTopic | Operation::DeleteTopic
        | Operation::PurgeTopic | Operation::CreatePartitions => g.manage_streams || g.manage_topics,
        Operation::GetTopic | Operation::GetTopics => g.manage_streams || g.read_streams
            || g.manage_topics || g.read_topics,
        Operation::PollMessages => g.manage_streams || g.read_streams || g.poll_messages,
        Operation::AppendMessages => g.manage_streams || g.send_messages,
    }
}

/// Whether one stream's overlay allows `op` on that stream.
pub open spec fn stream_allows(s: StreamPermissions, op: Operation) -> bool {
    match op {
        Operation::CreateTopic | Operation::UpdateTopic | Operation::DeleteTopic
        | Operation::PurgeTopic | Operation::CreatePartitions => s.manage_stream || s.manage_topics,
        Operation::GetTopic | Operation::GetTopics => s.manage_stream || s.read_stream
            || s.manage_topics || s.read_topics,
        Operation::PollMessages => s.manage_stream || s.read_stream || s.poll_messages,
        Operation::AppendMessages => s.manage_stream || s.send_messages,
        _ => false,
    }
}

/// Whether a permission set allows `op` on stream `stream_id`.
pub open spec fn permissions_allow(p: Permissions, op: Operation, stream_id: u32) -> bool {
    global_allows(p.global, op) || exists|i: int|
        0 <= i < p.streams@.len() && (#[trigger] p.streams@[i]).stream_id == stream_id
            && stream_allows(p.streams@[i], op)
}

/// Two optional permission sets with the same bits and overlays.
pub open spec fn same_permissions(a: Option<Permissions>, b: Option<Permissions>) -> bool {
    match (a, b) {
        (Some(x), Some(y)) => x.global == y.global && x.streams@ == y.streams@,
        (None, None) => true,
        _ => false,
    }
}

/// A user without permissions is allowed nothing.
pub open spec fn allows(p: Option<Permissions>, op: Operation, stream_id: u32) -> bool {
    match p {
        Some(p) => permissions_allow(p, op, stream_id),
        None => false,
    }
}

fn global_allows_exec(g: &GlobalPermissions, op: Operation) -> (r: bool)
    ensures
        r == global_allows(*g, op),
{
    match op {
        Operation::CreateUser | Operation::DeleteUser | Operation::UpdateUser
        | Operation::UpdatePermissions | Operation::ChangePassword => g.manage_users,
        Operation::GetUser | Operation::GetUsers => g.manage_users || g.read_users,
        Operation::CreateStream => g.manage_streams,
        Operation::CreateTopic | Operation::UpdateTopic | Operation::DeleteTopic
        | Operation::PurgeTopic | Operation::CreatePartitions => g.manage_streams || g.manage_topics,
        Operation::GetTopic | Operation::GetTopics => g.manage_streams || g.read_streams
            || g.manage_topics || g.read_topics,
        Operation::PollMessages => g.manage_streams || g.read_streams || g.poll_messages,
        Operation::AppendMessages => g.manage_streams || g.send_messages,
    }
}

fn stream_allows_exec(s: &StreamPermissions, op: Operation) -> (r: bool)
    ensures
        r == stream_allows(*s, op),
{
    match op {
        Operation::CreateTopic | Operation::UpdateTopic | Operation::DeleteTopic
        | Operation::PurgeTopic | Operation::CreatePartitions => s.manage_stream || s.manage_topics,
        Operation::GetTopic | Operation::GetTopics => s.manage_stream || s.read_stream
            || s.manage_topics || s.read_topics,
        Operation::PollMessages => s.manage_stream || s.read_stream || s.poll_messages,
        Operation::AppendMessages => s.manage_stream || s.send_messages,
        _ => false,
    }
}

impl Permissions {
    /// Every capability, with no overlays: what the root user holds.
    pub fn root() -> (r: Permissions)
        ensures
            r.global == (GlobalPermissions {
                manage_servers: true,
                read_servers: true,
                manage_users: true,
                read_users: true,
                manage_streams: true,
                read_streams: true,
                manage_topics: true,
                read_topics: true,
                poll_messages: true,
                send_messages: true,
            }),
            r.streams@.len() == 0,
    {
        Permissions {
            global: GlobalPermissions {
                manage_servers: true,
                read_servers: true,
                manage_users: true,
                read_users: true,
                manage_streams: true,
                read_streams: true,
                manage_topics: true,
                read_topics: true,
                poll_messages: true,
                send_messages: true,
            },
            streams: Vec::new(),
        }
    }

    /// A copy with the same global bits and the same overlays, in order.
    pub fn copy(&self) -> (r: Permissions)
        ensures
            r.global == self.global,
            r.streams@ == self.streams@,
    {
        let mut streams: Vec<StreamPermissions> = Vec::new();
        let mut i: usize = 0;
        while i < self.streams.len()
            invariant
                i <= self.streams@.len(),
                streams@ == self.streams@.take(i as int),
            decreases self.streams@.len() - i,
        {
            streams.push(self.streams[i]);
            proof {
                assert(streams@ =~= self.streams@.take(i + 1));
            }
            i = i + 1;
        }
        proof {
            assert(self.streams@.take(self.streams@.len() as int) =~= self.streams@);
        }
        Permissions { global: self.global, streams }
    }

    pub fn allows_op(&self, op: Operation, stream_id: u32) -> (r: bool)
        ensures
            r == permissions_allow(*self, op, stream_id),
    {
        if global_allows_exec(&self.global, op) {
            return true;
        }
        let mut i: usize = 0;
        while i < self.streams.len()
            invariant
                i <= self.streams@.len(),
                forall|j: int|
                    0 <= j < i ==> !((#[trigger] self.streams@[j]).stream_id == stream_id
                        && stream_allows(self.streams@[j], op)),
            decreases self.streams@.len() - i,
        {
            let s = &self.streams[i];
            if s.stream_id == stream_id && stream_allows_exec(s, op) {
                return true;
            }
            i = i + 1;
        }
        false
    }
}

/// Checks `op` on `stream_id` against an optional permission set.
pub fn check(p: &Option<Permissions>, op: Operation, stream_id: u32) -> (r: Result<(), EngineError>)
    ensures
        r is Ok <==> allows(*p, op, stream_id),
        r is Err ==> r == Err::<(), EngineError>(EngineError::PermissionDenied),
{
    match p {
        Some(p) => {
            if p.allows_op(op, stream_id) {
                Ok(())
            } else {
                Err(EngineError::PermissionDenied)
            }
        },
        None => Err(EngineError::PermissionDenied),
    }
}

} // verus!
