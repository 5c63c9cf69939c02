//! The L2 data plane: MAC extraction from Ethernet frames, the egress
//! forwarding decision, and ingress learning.
//!
//! A frame leaving the local TAP is unicast to the switch its destination
//! MAC was learned from, when that switch has a live session; otherwise it
//! is flooded to every VRF member with a live session.  A frame arriving
//! from a peer records its source MAC against that peer before it is
//! written to the TAP.

use vstd::prelude::*;
use vstd::slice::*;

use crate::tables::{lookup_mac, spec_learn, learn, lookup_learned, LearnEntry, LearnEntryV};
use crate::types::{members_contain, SwitchId, Vrf, VrfV, VrfId};

verus! {

/// The first six bytes of a frame: where it is going.
pub fn get_destination_mac(buffer: &[u8]) -> (mac: [u8; 6])
    requires
        buffer@.len() >= 6,
    ensures
        mac@ == buffer@.subrange(0, 6),
{
    let mac: [u8; 6] = [
        *slice_index_get(buffer, 0),
        *slice_index_get(buffer, 1),
        *slice_index_get(buffer, 2),
        *slice_index_get(buffer, 3),
        *slice_index_get(buffer, 4),
        *slice_index_get(buffer, 5),
    ];
    proof {
        assert(mac@ =~= buffer@.subrange(0, 6));
    }
    mac
}

/// Bytes six to twelve of a frame: where it came from.
pub fn get_source_mac(buffer: &[u8]) -> (mac: [u8; 6])
    requires
        buffer@.len() >= 12,
    ensures
        mac@ == buffer@.subrange(6, 12),
{
    let mac: [u8; 6] = [
        *slice_index_get(buffer, 6),
        *slice_index_get(buffer, 7),
        *slice_index_get(buffer, 8),
        *slice_index_get(buffer, 9),
        *slice_index_get(buffer, 10),
        *slice_index_get(buffer, 11),
    ];
    proof {
        assert(mac@ =~= buffer@.subrange(6, 12));
    }
    mac
}

/// Where one egress frame goes: to one learned peer, or to every live
/// member of the VRF.
pub enum ForwardDecision {
    Unicast(SwitchId),
    Flood(Vec<SwitchId>),
}

/// Mathematical image of a [`ForwardDecision`].
pub enum ForwardDecisionV {
    Unicast(SwitchId),
    Flood(Seq<SwitchId>),
}

impl View for ForwardDecision {
    type V = ForwardDecisionV;

    open spec fn view(&self) -> ForwardDecisionV {
        match self {
            ForwardDecision::Unicast(s) => ForwardDecisionV::Unicast(*s),
            ForwardDecision::Flood(t) => ForwardDecisionV::Flood(t@),
        }
    }
}

/// The members that have a live session, in member order.
pub open spec fn flood_targets(members: Seq<SwitchId>, peers: Seq<SwitchId>) -> Seq<SwitchId>
    decreases members.len(),
{
    if members.len() == 0 {
        Seq::empty()
    } else if peers.contains(members[0]) {
        seq![members[0]] + flood_targets(members.drop_first(), peers)
    } else {
        flood_targets(members.drop_first(), peers)
    }
}

proof fn lemma_flood_targets_push(members: Seq<SwitchId>, peers: Seq<SwitchId>, e: SwitchId)
    ensures
        flood_targets(members.push(e), peers) == if peers.contains(e) {
            flood_targets(members, peers).push(e)
        } else {
            flood_targets(members, peers)
        },
    decreases members.len(),
{
    if members.len() == 0 {
        assert(members.push(e)[0] == e);
        assert(members.push(e).drop_first() =~= Seq::<SwitchId>::empty());
        assert(flood_targets(Seq::<SwitchId>::empty(), peers) == Seq::<SwitchId>::empty());
        if peers.contains(e) {
            assert(flood_targets(members.push(e), peers) =~= flood_targets(
                members,
                peers,
            ).push(e));
        } else {
            assert(flood_targets(members.push(e), peers) =~= flood_targets(members, peers));
        }
    } else {
        assert(members.push(e)[0] == members[0]);
        assert(members.push(e).drop_first() =~= members.drop_first().push(e));
        lemma_flood_targets_push(members.drop_first(), peers, e);
        assert(flood_targets(members.drop_first().push(e), peers) == if peers.contains(e) {
            flood_targets(members.drop_first(), peers).push(e)
        } else {
            flood_targets(members.drop_first(), peers)
        });
        if peers.contains(e) {
            assert(flood_targets(members.push(e), peers) =~= flood_targets(
                members,
                peers,
            ).push(e));
        } else {
            assert(flood_targets(members.push(e), peers) =~= flood_targets(members, peers));
        }
    }
}

/// The forwarding rule: unicast when the destination was learned from a
/// switch that has a live session, flood to the live members otherwise.
pub open spec fn spec_forward(
    learned: Seq<LearnEntryV>,
    peers: Seq<SwitchId>,
    vrf: VrfV,
    dst: Seq<u8>,
) -> ForwardDecisionV {
    match lookup_mac(learned, vrf.id, dst) {
        Some(s) => if peers.contains(s) {
            ForwardDecisionV::Unicast(s)
        } else {
            ForwardDecisionV::Flood(flood_targets(vrf.members, peers))
        },
        None => ForwardDecisionV::Flood(flood_targets(vrf.members, peers)),
    }
}

fn flood_targets_exec(members: &Vec<SwitchId>, peers: &Vec<SwitchId>) -> (r: Vec<SwitchId>)
    ensures
        r@ == flood_targets(members@, peers@),
{
    let mut r: Vec<SwitchId> = Vec::new();
    let mut i: usize = 0;
    proof {
        assert(members@.take(0) =~= Seq::<SwitchId>::empty());
    }
    while i < members.len()
        invariant
            i <= members@.len(),
            r@ =~= flood_targets(members@.take(i as int), peers@),
        decreases members@.len() - i,
    {
        proof {
            lemma_flood_targets_push(members@.take(i as int), peers@, members@[i as int]);
            assert(members@.take(i + 1) =~= members@.take(i as int).push(members@[i as int]));
        }
        if members_contain(peers, members[i]) {
            r.push(members[i]);
        }
        i = i + 1;
    }
    proof {
        assert(members@.take(members@.len() as int) =~= members@);
        assert(r@ =~= flood_targets(members@, peers@));
    }
    r
}

/// Decide what to do with a frame read from the local TAP.  Frames too
/// short to carry an Ethernet header are dropped.
pub fn handle_egress(
    learned: &Vec<LearnEntry>,
    peers: &Vec<SwitchId>,
    vrf: &Vrf,
    frame: &[u8],
) -> (r: Option<ForwardDecision>)
    ensures
        match r {
            None => frame@.len() < 14,
            Some(d) => frame@.len() >= 14 && d@ == spec_forward(
                learned.deep_view(),
                peers@,
                vrf@,
                frame@.subrange(0, 6),
            ),
        },
{
    if frame.len() < 14 {
        return None;
    }
    let dst = get_destination_mac(frame);
    match lookup_learned(learned, vrf.id, &dst) {
        Some(s) => {
            if members_contain(peers, s) {
                Some(ForwardDecision::Unicast(s))
            } else {
                Some(ForwardDecision::Flood(flood_targets_exec(&vrf.members, peers)))
            }
        },
        None => Some(ForwardDecision::Flood(flood_targets_exec(&vrf.members, peers))),
    }
}

/// Record where a frame delivered by a peer came from, before it is
/// written to the TAP: its source MAC now maps to the delivering switch.
pub fn handle_ingress(
    learned: &mut Vec<LearnEntry>,
    vrf_id: VrfId,
    origin: SwitchId,
    frame: &[u8],
)
    requires
        frame@.len() >= 12,
    ensures
        final(learned).deep_view() == spec_learn(
            old(learned).deep_view(),
            vrf_id,
            frame@.subrange(6, 12),
            origin,
        ),
{
    let src = get_source_mac(frame);
    learn(learned, vrf_id, src, origin);
}

/// After one frame from switch `origin` with source MAC `mac` is learned
/// on a VRF, a frame for `mac` on that VRF is unicast to `origin` alone,
/// whenever `origin` has a live session.
pub proof fn lemma_learning_correct(
    learned: Seq<LearnEntryV>,
    peers: Seq<SwitchId>,
    vrf: VrfV,
    mac: Seq<u8>,
    origin: SwitchId,
)
    requires
        peers.contains(origin),
    ensures
        spec_forward(spec_learn(learned, vrf.id, mac, origin), peers, vrf, mac)
            == ForwardDecisionV::Unicast(origin),
{
    crate::tables::lemma_lookup_learn(learned, vrf.id, mac, origin, vrf.id, mac);
}

} // verus!
