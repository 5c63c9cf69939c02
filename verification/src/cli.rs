//! The operator's requests: what each command sends to the daemon, how a
//! name is resolved to a VRF id, and how a `List` reply is collected.

use vstd::prelude::*;

use crate::control::{list_chunks, list_reply, list_reply_of, lemma_list_chunks_complete};
use crate::tables::{find_vrf_by_name, vrf_find_index_by_name};
use crate::types::{Packet, PacketV, SwitchId, Vrf, VrfAction, VrfActionV, VrfId, VrfV};

verus! {

/// One operator command on the VRF table.
pub enum VrfCommand {
    /// Show the whole table.
    List,
    /// Create a VRF.
    Create { id: VrfId, name: String, members: Vec<SwitchId> },
    /// Delete a VRF, by id or by name.
    Delete { id: VrfIdArg },
    /// Change a VRF's members, by id or by name.
    Member { id: VrfIdArg, command: MemberCommand },
}

/// What to do with the members of a VRF.
pub enum MemberCommand {
    Add { members: Vec<SwitchId> },
    Remove { members: Vec<SwitchId> },
}

/// A VRF named either directly by id or by its name; exactly one of the
/// two is given.
pub struct VrfIdArg {
    pub id: Option<VrfId>,
    pub name: Option<String>,
}

impl VrfIdArg {
    /// The id this argument stands for, given the listed table: the id
    /// itself, or the id of the VRF with the given name.
    pub fn resolve(&self, listed: &Vec<Vrf>) -> (r: Option<VrfId>)
        requires
            self.id is Some || self.name is Some,
        ensures
            (match self.name {
                Some(name) => r == (match find_vrf_by_name(listed.deep_view(), name@) {
                    Some(v) => Some(v.id),
                    None => None::<VrfId>,
                }),
                None => r == self.id,
            }),
    {
        match &self.name {
            Some(name) => match vrf_find_index_by_name(listed, name) {
                Some(i) => Some(listed[i].id),
                None => None,
            },
            None => self.id,
        }
    }
}

/// The action a command sends, once its id argument is resolved.
pub fn action_for(command: VrfCommand, resolved: VrfId) -> (r: VrfAction)
    ensures
        r@ == (match command {
            VrfCommand::List => VrfActionV::List(None),
            VrfCommand::Create { id, name, members } => VrfActionV::Create(
                VrfV { id, name: name@, members: members@ },
            ),
            VrfCommand::Delete { .. } => VrfActionV::Delete { id: resolved },
            VrfCommand::Member { command: cmd, .. } => match cmd {
                MemberCommand::Add { members } => VrfActionV::AddMember {
                    id: resolved,
                    members: members@,
                },
                MemberCommand::Remove { members } => VrfActionV::RemoveMember {
                    id: resolved,
                    members: members@,
                },
            },
        }),
{
    match command {
        VrfCommand::List => VrfAction::List(None),
        VrfCommand::Create { id, name, members } => VrfAction::Create(
            Vrf { id, name, members },
        ),
        VrfCommand::Delete { .. } => VrfAction::Delete { id: resolved },
        VrfCommand::Member { command: cmd, .. } => match cmd {
            MemberCommand::Add { members } => VrfAction::AddMember { id: resolved, members },
            MemberCommand::Remove { members } => VrfAction::RemoveMember {
                id: resolved,
                members,
            },
        },
    }
}

// ---------------------------------------------------------------------------
// Collecting a List reply
// ---------------------------------------------------------------------------

/// Fold one received packet into the VRFs collected so far.  A non-empty
/// chunk extends the collection; the empty chunk ends it; anything else
/// is ignored and the collection goes on.
pub fn list_collect_step(acc: &mut Vec<Vrf>, packet: Packet) -> (done: bool)
    ensures
        (match packet@ {
            PacketV::VrfAction(VrfActionV::List(Some(chunk))) => if chunk.len() == 0 {
                done && final(acc)@ == old(acc)@
            } else {
                !done && final(acc).deep_view() == old(acc).deep_view() + chunk
            },
            _ => !done && final(acc)@ == old(acc)@,
        }),
{
    match packet {
        Packet::VrfAction(VrfAction::List(Some(chunk))) => {
            if chunk.len() == 0 {
                true
            } else {
                let ghost before = acc.deep_view();
                let ghost chunk_v = chunk.deep_view();
                let mut chunk = chunk;
                acc.append(&mut chunk);
                proof {
                    assert(acc.deep_view() =~= before + chunk_v);
                }
                false
            }
        },
        _ => false,
    }
}

/// What collecting a packet sequence yields, starting from what is
/// already collected.
pub open spec fn spec_collect(packets: Seq<PacketV>, acc: Seq<VrfV>) -> Seq<VrfV>
    decreases packets.len(),
{
    if packets.len() == 0 {
        acc
    } else {
        match packets[0] {
            PacketV::VrfAction(VrfActionV::List(Some(chunk))) => if chunk.len() == 0 {
                acc
            } else {
                spec_collect(packets.drop_first(), acc + chunk)
            },
            _ => spec_collect(packets.drop_first(), acc),
        }
    }
}

proof fn lemma_collect_reply_of(chunks: Seq<Seq<VrfV>>, acc: Seq<VrfV>)
    requires
        forall|i: int| 0 <= i < chunks.len() ==> (#[trigger] chunks[i]).len() > 0,
    ensures
        spec_collect(list_reply_of(chunks), acc) == acc + chunks.flatten(),
    decreases chunks.len(),
{
    if chunks.len() == 0 {
        assert(list_reply_of(chunks)[0] == crate::control::pack_chunk(Seq::empty()));
        assert(Seq::<Seq<VrfV>>::empty().flatten() =~= Seq::<VrfV>::empty());
        assert(acc + Seq::<VrfV>::empty() =~= acc);
    } else {
        let packets = list_reply_of(chunks);
        assert(packets[0] == crate::control::pack_chunk(chunks[0]));
        assert(packets.drop_first() =~= list_reply_of(chunks.drop_first()));
        assert(chunks[0].len() > 0);
        assert forall|i: int|
            0 <= i < chunks.drop_first().len() implies (#[trigger] chunks.drop_first()[
            i]).len() > 0 by {
            assert(chunks.drop_first()[i] == chunks[i + 1]);
        }
        lemma_collect_reply_of(chunks.drop_first(), acc + chunks[0]);
        assert(chunks.flatten() == chunks[0] + chunks.drop_first().flatten());
        assert((acc + chunks[0]) + chunks.drop_first().flatten() =~= acc + chunks.flatten());
    }
}

/// The requester gets the table back whole: collecting the reply to a
/// `List` request yields exactly the VRFs the responder held, in order.
pub proof fn lemma_list_reply_collects(vs: Seq<VrfV>)
    ensures
        spec_collect(list_reply(vs), Seq::empty()) == vs,
{
    lemma_list_chunks_complete(vs);
    lemma_collect_reply_of(list_chunks(vs), Seq::empty());
    assert(Seq::<VrfV>::empty() + vs =~= vs);
}

} // verus!
