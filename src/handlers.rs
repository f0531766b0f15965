use vstd::prelude::*;
use crate::error::EngineError;
use crate::identifier::Identifier;
use crate::metadata::{EntryCommand, MetadataEntry, MetadataLog};
use crate::permissions::Operation;
use crate::session::Session;
use crate::session::{without_topic_groups, without_user};
use crate::shard::{
    only_topic_changed, rows_without_topic, shard_rows, stream_id_of, topic_index, IggyShard,
};
use crate::topic::{normalized, normalized_replication, normalized_size, CompressionAlgorithm};
use crate::users::{delete_user_error, lowercase_of, resolved_index, System};

verus! {

/// Deletes a user and, on success, records one `DeleteUser` entry.
pub fn handle_delete_user(
    system: &mut System,
    log: &mut MetadataLog,
    session: &Session,
    user_id: &Identifier,
) -> (r: Result<(), EngineError>)
    requires
        old(system).wf(),
    ensures
        r is Err ==> *final(system) == *old(system),
        r is Ok ==> {
            let i = resolved_index(old(system).users_seq(), *user_id);
            &&& final(system).users_seq() == old(system).users_seq().remove(i)
            &&& final(system).next_id() == old(system).next_id()
            &&& final(system).clients() == without_user(
                old(system).clients(),
                old(system).users_seq()[i].id,
            )
        },
        final(system).wf(),
        r is Ok <==> delete_user_error(old(system).users_seq(), session.user_id, *user_id) is None,
        r matches Err(e) ==> delete_user_error(old(system).users_seq(), session.user_id, *user_id)
            == Some(e) && *final(log) == *old(log),
        r is Ok ==> {
            let removed = old(system).users_seq()[resolved_index(old(system).users_seq(),
                *user_id)];
            &&& final(log)@.len() == old(log)@.len() + 1
            &&& final(log)@.drop_last() == old(log)@
            &&& final(log)@.last().user_id == session.user_id
            &&& final(log)@.last().command == EntryCommand::DeleteUser { user_id: removed.id }
        },
{
    let user = system.delete_user(session, user_id)?;
    log.apply(MetadataEntry { user_id: session.user_id,
        command: EntryCommand::DeleteUser { user_id: user.id } });
    proof {
        assert(log@.drop_last() =~= old(log)@);
    }
    Ok(())
}

/// Deletes a topic and, on success, records one `DeleteTopic` entry.
pub fn handle_delete_topic(
    shard: &mut IggyShard,
    system: &mut System,
    log: &mut MetadataLog,
    session: &Session,
    stream_id: &Identifier,
    topic_id: &Identifier,
) -> (r: Result<(), EngineError>)
    requires
        old(shard).wf(),
        old(system).wf(),
    ensures
        final(system).wf(),
        final(shard).streams_seq() == old(shard).streams_seq(),
        final(system).users_seq() == old(system).users_seq(),
        final(system).clients() == old(system).clients(),
        r is Err ==> final(system).groups() == old(system).groups(),
        r is Err ==> final(shard).topics_seq() == old(shard).topics_seq() && final(shard).table()
            == old(shard).table() && final(shard).tracker() == old(shard).tracker(),
        r is Ok ==> {
            let sid = stream_id_of(old(shard).streams_seq(), *stream_id);
            let i = topic_index(old(shard).topics_seq(), sid, *topic_id);
            &&& final(shard).topics_seq() == old(shard).topics_seq().remove(i)
            &&& final(system).groups() == without_topic_groups(
                old(system).groups(),
                sid,
                old(shard).topics_seq()[i].tid(),
            )
            &&& final(shard).table() == rows_without_topic(
                old(shard).table(),
                sid,
                old(shard).topics_seq()[i].tid(),
            )
        },
        final(shard).wf(),
        match old(shard).access_fails(*old(system), session.client_id, *stream_id, *topic_id,
            Operation::DeleteTopic) {
            Some(e) => r == Err::<(), EngineError>(e) && *final(log) == *old(log),
            None => {
                let sid = stream_id_of(old(shard).streams_seq(), *stream_id);
                let t = old(shard).topics_seq()[topic_index(old(shard).topics_seq(), sid,
                    *topic_id)];
                &&& r is Ok
                &&& final(log)@.len() == old(log)@.len() + 1
                &&& final(log)@.drop_last() == old(log)@
                &&& final(log)@.last().user_id == session.user_id
                &&& final(log)@.last().command
                    == EntryCommand::DeleteTopic { stream_id: t.sid(), topic_id: t.tid() }
            },
        },
{
    let topic = shard.delete_topic(system, session.client_id, stream_id, topic_id)?;
    log.apply(MetadataEntry {
        user_id: session.user_id,
        command: EntryCommand::DeleteTopic { stream_id: topic.stream_id(),
            topic_id: topic.topic_id() },
    });
    proof {
        assert(log@.drop_last() =~= old(log)@);
    }
    Ok(())
}

/// Updates a topic and, on success, records one `UpdateTopic` entry that
/// carries the normalized expiry and size limit.
pub fn handle_update_topic(
    shard: &mut IggyShard,
    system: &System,
    log: &mut MetadataLog,
    session: &Session,
    stream_id: &Identifier,
    topic_id: &Identifier,
    name: String,
    message_expiry: Option<u32>,
    compression_algorithm: CompressionAlgorithm,
    max_topic_size: Option<u64>,
    replication_factor: Option<u8>,
) -> (r: Result<(), EngineError>)
    requires
        old(shard).wf(),
        system.wf(),
    ensures
        final(shard).streams_seq() == old(shard).streams_seq(),
        final(shard).table() == old(shard).table(),
        final(shard).tracker() == old(shard).tracker(),
        r is Err ==> final(shard).topics_seq() == old(shard).topics_seq(),
        r is Ok ==> {
            let sid = stream_id_of(old(shard).streams_seq(), *stream_id);
            let i = topic_index(old(shard).topics_seq(), sid, *topic_id);
            let before = old(shard).topics_seq()[i];
            let after = final(shard).topics_seq()[i];
            &&& only_topic_changed(old(shard).topics_seq(), final(shard).topics_seq(), i)
            &&& after.tid() == before.tid()
            &&& after.sid() == before.sid()
            &&& after.parts() == before.parts()
            &&& after.name_view() == lowercase_of(name@)
            &&& after.expiry() == normalized(message_expiry)
            &&& after.size_limit() == normalized_size(max_topic_size)
            &&& after.compression() == compression_algorithm
            &&& after.replication() == normalized_replication(replication_factor)
        },
        final(shard).wf(),
        r is Err ==> *final(log) == *old(log),
        old(shard).access_fails(*system, session.client_id, *stream_id, *topic_id,
            Operation::UpdateTopic) matches Some(e) ==> r == Err::<(), EngineError>(e),
        old(shard).access_fails(*system, session.client_id, *stream_id, *topic_id,
            Operation::UpdateTopic) is None ==> {
            let sid = stream_id_of(old(shard).streams_seq(), *stream_id);
            let i = topic_index(old(shard).topics_seq(), sid, *topic_id);
            (r is Ok <==> !exists|j: int|
                0 <= j < old(shard).topics_seq().len() && j != i
                    && (#[trigger] old(shard).topics_seq()[j]).sid()
                    == sid && old(shard).topics_seq()[j].name_view() == lowercase_of(name@))
        },
        r is Ok ==> {
            let sid = stream_id_of(old(shard).streams_seq(), *stream_id);
            let t = old(shard).topics_seq()[topic_index(old(shard).topics_seq(), sid, *topic_id)];
            &&& old(shard).access_fails(*system, session.client_id, *stream_id, *topic_id,
                Operation::UpdateTopic) is None
            &&& final(log)@.len() == old(log)@.len() + 1
            &&& final(log)@.drop_last() == old(log)@
            &&& final(log)@.last().user_id == session.user_id
            &&& final(log)@.last().command == EntryCommand::UpdateTopic {
                stream_id: sid,
                topic_id: t.tid(),
                message_expiry: normalized(message_expiry),
                max_topic_size: normalized_size(max_topic_size),
            }
        },
{
    let (_, sid, ti) = shard.locate(system, session.client_id, stream_id, topic_id,
        Operation::UpdateTopic)?;
    let tid = shard.topic_id_at(ti);
    let (expiry, size) = shard.update_topic(
        system,
        session.client_id,
        stream_id,
        topic_id,
        name,
        message_expiry,
        compression_algorithm,
        max_topic_size,
        replication_factor,
    )?;
    log.apply(MetadataEntry {
        user_id: session.user_id,
        command: EntryCommand::UpdateTopic { stream_id: sid, topic_id: tid, message_expiry: expiry,
            max_topic_size: size },
    });
    proof {
        assert(log@.drop_last() =~= old(log)@);
    }
    Ok(())
}

/// Adds partitions to a topic and, on success, records one
/// `CreatePartitions` entry.
pub fn handle_create_partitions(
    shard: &mut IggyShard,
    system: &System,
    log: &mut MetadataLog,
    session: &Session,
    stream_id: &Identifier,
    topic_id: &Identifier,
    partitions_count: u32,
) -> (r: Result<(), EngineError>)
    requires
        old(shard).wf(),
        system.wf(),
    ensures
        final(shard).streams_seq() == old(shard).streams_seq(),
        final(shard).tracker() == old(shard).tracker(),
        r is Err ==> final(shard).topics_seq() == old(shard).topics_seq() && final(shard).table()
            == old(shard).table(),
        r is Ok ==> {
            let sid = stream_id_of(old(shard).streams_seq(), *stream_id);
            let i = topic_index(old(shard).topics_seq(), sid, *topic_id);
            let before = old(shard).topics_seq()[i];
            let after = final(shard).topics_seq()[i];
            let first = (before.parts().len() + 1) as u32;
            &&& only_topic_changed(old(shard).topics_seq(), final(shard).topics_seq(), i)
            &&& after.same_config(before)
            &&& after.parts().len() == before.parts().len() + partitions_count
            &&& after.parts().take(before.parts().len() as int) == before.parts()
            &&& final(shard).table() == old(shard).table() + shard_rows(
                sid,
                before.tid(),
                first,
                partitions_count,
                old(shard).shards(),
            )
        },
        final(shard).wf(),
        r is Err ==> *final(log) == *old(log),
        old(shard).access_fails(*system, session.client_id, *stream_id, *topic_id,
            Operation::CreatePartitions) matches Some(e) ==> r == Err::<(), EngineError>(e),
        old(shard).access_fails(*system, session.client_id, *stream_id, *topic_id,
            Operation::CreatePartitions) is None ==> {
            let sid = stream_id_of(old(shard).streams_seq(), *stream_id);
            let t = old(shard).topics_seq()[topic_index(old(shard).topics_seq(), sid, *topic_id)];
            (r is Ok <==> t.parts().len() + partitions_count <= u32::MAX)
        },
        r is Ok ==> {
            let sid = stream_id_of(old(shard).streams_seq(), *stream_id);
            let t = old(shard).topics_seq()[topic_index(old(shard).topics_seq(), sid, *topic_id)];
            &&& old(shard).access_fails(*system, session.client_id, *stream_id, *topic_id,
                Operation::CreatePartitions) is None
            &&& final(log)@.len() == old(log)@.len() + 1
            &&& final(log)@.drop_last() == old(log)@
            &&& final(log)@.last().user_id == session.user_id
            &&& final(log)@.last().command == EntryCommand::CreatePartitions {
                stream_id: sid,
                topic_id: t.tid(),
                partitions_count,
            }
        },
{
    let (_, sid, ti) = shard.locate(system, session.client_id, stream_id, topic_id,
        Operation::CreatePartitions)?;
    let tid = shard.topic_id_at(ti);
    shard.create_partitions(system, session.client_id, stream_id, topic_id, partitions_count)?;
    log.apply(MetadataEntry {
        user_id: session.user_id,
        command: EntryCommand::CreatePartitions { stream_id: sid, topic_id: tid, partitions_count },
    });
    proof {
        assert(log@.drop_last() =~= old(log)@);
    }
    Ok(())
}

} // verus!
