use vstd::prelude::*;
use crate::error::EngineError;

verus! {

/// The per-request view of a connection: which client it is and which user
/// it is authenticated as (0 when none).
#[derive(Clone, Copy, Debug, PartialEq, Eq, Structural)]
pub struct Session {
    pub client_id: u32,
    pub user_id: u32,
}

impl Session {
    pub fn new(client_id: u32) -> (r: Session)
        ensures
            r == (Session { client_id, user_id: 0 }),
    {
        Session { client_id, user_id: 0 }
    }

    pub open spec fn authenticated(&self) -> bool {
        self.user_id != 0
    }

    pub fn is_authenticated(&self) -> (r: bool)
        ensures
            r == self.authenticated(),
    {
        self.user_id != 0
    }

    pub fn get_user_id(&self) -> (r: u32)
        ensures
            r == self.user_id,
    {
        self.user_id
    }
}

/// One connected client and the user bound to it (0 when none).
#[derive(Clone, Copy, Debug, PartialEq, Eq, Structural)]
pub struct Client {
    pub client_id: u32,
    pub user_id: u32,
}

/// Every entry for client `client_id` bound to `user_id`; the others kept.
pub open spec fn rebind(clients: Seq<Client>, client_id: u32, user_id: u32) -> Seq<Client> {
    clients.map_values(
        |c: Client|
            if c.client_id == client_id {
                Client { client_id, user_id }
            } else {
                c
            },
    )
}

/// The clients that are not bound to `user_id`, in order.
pub open spec fn without_user(clients: Seq<Client>, user_id: u32) -> Seq<Client> {
    clients.filter(|c: Client| c.user_id != user_id)
}

pub open spec fn has_client(clients: Seq<Client>, client_id: u32) -> bool {
    exists|i: int| 0 <= i < clients.len() && (#[trigger] clients[i]).client_id == client_id
}

/// The user that the first entry of `client_id` is bound to, if any entry exists.
pub open spec fn binding_of(clients: Seq<Client>, client_id: u32) -> Option<u32>
    decreases clients.len(),
{
    if clients.len() == 0 {
        None
    } else if clients[0].client_id == client_id {
        Some(clients[0].user_id)
    } else {
        binding_of(clients.skip(1), client_id)
    }
}

/// The user that client `client_id` is authenticated as; 0 for none.
pub open spec fn caller_of(clients: Seq<Client>, client_id: u32) -> u32 {
    match binding_of(clients, client_id) {
        Some(u) => u,
        None => 0,
    }
}

/// Rebinding keeps the set of known clients.
pub proof fn lemma_rebind_keeps_clients(clients: Seq<Client>, client_id: u32, user_id: u32, c: u32)
    ensures
        has_client(rebind(clients, client_id, user_id), c) == has_client(clients, c),
{
    let r = rebind(clients, client_id, user_id);
    if has_client(clients, c) {
        let i = choose|i: int| 0 <= i < clients.len() && (#[trigger] clients[i]).client_id == c;
        assert(r[i].client_id == c);
    }
    if has_client(r, c) {
        let i = choose|i: int| 0 <= i < r.len() && (#[trigger] r[i]).client_id == c;
        assert(clients[i].client_id == c);
    }
}

/// A client's membership in a consumer group of a topic.
#[derive(Clone, Copy, Debug, PartialEq, Eq, Structural)]
pub struct GroupMember {
    pub client_id: u32,
    pub stream_id: u32,
    pub topic_id: u32,
    pub group_id: u32,
}

/// The memberships that do not belong to topic `topic_id` of stream `stream_id`, in order.
pub open spec fn without_topic_groups(groups: Seq<GroupMember>, stream_id: u32, topic_id: u32) -> Seq<
    GroupMember,
> {
    groups.filter(|g: GroupMember| !(g.stream_id == stream_id && g.topic_id == topic_id))
}

/// The connected clients, their user bindings and their consumer-group memberships.
#[derive(Debug)]
pub struct ClientManager {
    clients: Vec<Client>,
    groups: Vec<GroupMember>,
}

impl ClientManager {
    pub closed spec fn view(&self) -> Seq<Client> {
        self.clients@
    }

    pub closed spec fn groups(&self) -> Seq<GroupMember> {
        self.groups@
    }

    pub fn new() -> (r: ClientManager)
        ensures
            r@.len() == 0,
            r.groups().len() == 0,
    {
        ClientManager { clients: Vec::new(), groups: Vec::new() }
    }

    pub fn consumer_groups(&self) -> (r: &Vec<GroupMember>)
        ensures
            r@ == self.groups(),
    {
        &self.groups
    }

    /// Records that client `client_id` joined group `group_id` of a topic.
    pub fn join_consumer_group(&mut self, client_id: u32, stream_id: u32, topic_id: u32, group_id: u32)
        ensures
            final(self)@ == old(self)@,
            final(self).groups() == old(self).groups().push(
                GroupMember { client_id, stream_id, topic_id, group_id },
            ),
    {
        self.groups.push(GroupMember { client_id, stream_id, topic_id, group_id });
    }

    /// Drops every membership in the consumer groups of a topic.
    pub fn delete_consumer_groups_for_topic(&mut self, stream_id: u32, topic_id: u32)
        ensures
            final(self)@ == old(self)@,
            final(self).groups() == without_topic_groups(old(self).groups(), stream_id, topic_id),
    {
        let ghost start = self.groups@;
        let mut kept: Vec<GroupMember> = Vec::new();
        let mut i: usize = 0;
        while i < self.groups.len()
            invariant
                i <= self.groups@.len(),
                self.groups@ == start,
                kept@ == without_topic_groups(start.take(i as int), stream_id, topic_id),
            decreases self.groups@.len() - i,
        {
            let g = self.groups[i];
            proof {
                assert(start.take(i + 1).drop_last() =~= start.take(i as int));
                reveal(Seq::filter);
            }
            if !(g.stream_id == stream_id && g.topic_id == topic_id) {
                kept.push(g);
            }
            i = i + 1;
        }
        assert(start.take(start.len() as int) =~= start);
        self.groups = kept;
    }

    /// Registers a connected client, not yet bound to a user.
    pub fn add_client(&mut self, client_id: u32)
        ensures
            final(self).groups() == old(self).groups(),
            final(self)@ == old(self)@.push(Client { client_id, user_id: 0 }),
    {
        self.clients.push(Client { client_id, user_id: 0 });
    }

    /// The user bound to `client_id`, if the client is known.
    pub fn get_user_id(&self, client_id: u32) -> (r: Option<u32>)
        ensures
            r is None <==> !has_client(self@, client_id),
            r == binding_of(self@, client_id),
    {
        assert(self.clients@.skip(0) =~= self.clients@);
        let mut i: usize = 0;
        while i < self.clients.len()
            invariant
                i <= self.clients@.len(),
                forall|j: int| 0 <= j < i ==> (#[trigger] self.clients@[j]).client_id != client_id,
                binding_of(self.clients@, client_id)
                    == binding_of(self.clients@.skip(i as int), client_id),
            decreases self.clients@.len() - i,
        {
            proof {
                assert(self.clients@.skip(i as int).skip(1) =~= self.clients@.skip(i + 1));
            }
            if self.clients[i].client_id == client_id {
                return Some(self.clients[i].user_id);
            }
            i = i + 1;
        }
        proof {
            assert(self.clients@.skip(i as int).len() == 0);
        }
        None
    }

    fn rebind_all(&mut self, client_id: u32, user_id: u32)
        ensures
            final(self).groups() == old(self).groups(),
            final(self)@ == rebind(old(self)@, client_id, user_id),
    {
        let ghost start = self.clients@;
        let mut i: usize = 0;
        while i < self.clients.len()
            invariant
                i <= self.clients@.len(),
                self.groups@ == old(self).groups@,
                self.clients@.len() == start.len(),
                forall|j: int| i <= j < start.len() ==> self.clients@[j] == start[j],
                forall|j: int| 0 <= j < i
                    ==> self.clients@[j] == rebind(start, client_id, user_id)[j],
            decreases self.clients@.len() - i,
        {
            if self.clients[i].client_id == client_id {
                self.clients.set(i, Client { client_id, user_id });
            }
            i = i + 1;
        }
        assert(self.clients@ =~= rebind(start, client_id, user_id));
    }

    /// Binds the known client `client_id` to `user_id`.
    pub fn set_user_id(&mut self, client_id: u32, user_id: u32) -> (r: Result<(), EngineError>)
        ensures
            final(self).groups() == old(self).groups(),
            r is Ok <==> has_client(old(self)@, client_id),
            r is Ok ==> final(self)@ == rebind(old(self)@, client_id, user_id),
            r is Err ==> r == Err::<(), EngineError>(EngineError::ResourceNotFound)
                && final(self)@ == old(self)@,
    {
        if self.get_user_id(client_id).is_none() {
            return Err(EngineError::ResourceNotFound);
        }
        self.rebind_all(client_id, user_id);
        Ok(())
    }

    /// Removes the user binding of `client_id`.
    pub fn clear_user_id(&mut self, client_id: u32)
        ensures
            final(self).groups() == old(self).groups(),
            final(self)@ == rebind(old(self)@, client_id, 0),
    {
        self.rebind_all(client_id, 0);
    }

    /// Drops every client bound to `user_id`.
    pub fn delete_clients_for_user(&mut self, user_id: u32)
        ensures
            final(self).groups() == old(self).groups(),
            final(self)@ == without_user(old(self)@, user_id),
    {
        let ghost start = self.clients@;
        let mut kept: Vec<Client> = Vec::new();
        let mut i: usize = 0;
        while i < self.clients.len()
            invariant
                i <= self.clients@.len(),
                self.clients@ == start,
                self.groups@ == old(self).groups@,
                kept@ == without_user(start.take(i as int), user_id),
            decreases self.clients@.len() - i,
        {
            let c = self.clients[i];
            proof {
                assert(start.take(i + 1).drop_last() =~= start.take(i as int));
                reveal(Seq::filter);
            }
            if c.user_id != user_id {
                kept.push(c);
            }
            i = i + 1;
        }
        assert(start.take(start.len() as int) =~= start);
        self.clients = kept;
    }
}

/// After a client is bound to a user and then unbound, no entry of that
/// client is bound to any user.
pub proof fn login_then_logout_leaves_no_binding(clients: Seq<Client>, client_id: u32, user_id: u32)
    ensures
        forall|j: int|
            0 <= j < rebind(rebind(clients, client_id, user_id), client_id, 0).len()
                && (#[trigger] rebind(rebind(clients, client_id, user_id), client_id,
                    0)[j]).client_id
                == client_id
                    ==> rebind(rebind(clients, client_id, user_id), client_id, 0)[j].user_id
                == 0,
{
}

} // verus!
