//! The control plane: the node state and the transition that a
//! control-plane action performs on it.
//!
//! The transition is specified as a function on the mathematical state,
//! [`spec_step`], which also yields the TAP operations the surrounding
//! process must perform.  The executable [`process_vrf_action`] follows
//! that specification exactly.  A `List` action leaves the state alone
//! and yields the reply packets: the table in chunks of at most ten,
//! closed by an empty chunk.

use vstd::prelude::*;

use crate::tables::{
    contains_id, contains_name, find_vrf, ids_unique, learned_remove_vrf, lemma_find_vrf_add_member,
    lemma_find_vrf_by_name_characterize, lemma_find_vrf_characterize, lemma_find_vrf_push,
    lemma_find_vrf_remove_member, lemma_members_norm_contains, lemma_vrfs_remove_wf,
    members_norm, members_norm_exec, members_remove_exec, remove_vrf_entry, table_wf, taps_insert,
    taps_remove, taps_set, vrf_contains_id, vrf_contains_name, vrf_find_index, vrf_with_member,
    vrf_without_member, vrfs_add_member, vrfs_remove_id, vrfs_remove_member, forget_vrf,
    LearnEntry, LearnEntryV,
};
use crate::types::{
    members_contain, Packet, PacketV, SwitchId, Vrf, VrfAction, VrfActionV, VrfId, VrfV,
    CONFIGURATION_SWITCH_ID,
};

verus! {

/// Most VRFs carried in one `List` reply chunk.
pub const LIST_CHUNK_SIZE: usize = 10;

// ---------------------------------------------------------------------------
// State
// ---------------------------------------------------------------------------

/// Everything a node replicates: the VRF table, which VRFs have a running
/// TAP worker, and the learned MAC bindings.
pub struct SwitchState {
    pub local_id: SwitchId,
    pub vrfs: Vec<Vrf>,
    pub taps: Vec<VrfId>,
    pub learned: Vec<LearnEntry>,
}

/// Mathematical image of a [`SwitchState`], without the fixed local id.
#[verifier::ext_equal]
pub struct StateV {
    pub vrfs: Seq<VrfV>,
    pub taps: Set<VrfId>,
    pub learned: Seq<LearnEntryV>,
}

impl View for SwitchState {
    type V = StateV;

    open spec fn view(&self) -> StateV {
        StateV {
            vrfs: self.vrfs.deep_view(),
            taps: taps_set(self.taps@),
            learned: self.learned.deep_view(),
        }
    }
}

/// The representation invariant of the executable state.
pub open spec fn state_wf(s: &SwitchState) -> bool {
    &&& table_wf(s.vrfs.deep_view())
    &&& ids_unique(s.taps@)
}

/// The state of a node that has nothing yet.
pub open spec fn empty_state() -> StateV {
    StateV { vrfs: Seq::empty(), taps: Set::empty(), learned: Seq::empty() }
}

impl SwitchState {
    /// A node state with the given identity and nothing learned.
    pub fn new(local_id: SwitchId) -> (r: SwitchState)
        ensures
            r.local_id == local_id,
            r@ == empty_state(),
            state_wf(&r),
    {
        let r = SwitchState { local_id, vrfs: Vec::new(), taps: Vec::new(), learned: Vec::new() };
        proof {
            assert(r.vrfs.deep_view() =~= Seq::<VrfV>::empty());
            assert(r.learned.deep_view() =~= Seq::<LearnEntryV>::empty());
            assert(taps_set(r.taps@) =~= Set::<VrfId>::empty());
        }
        r
    }
}

/// The TAP workers a freshly loaded table calls for: one per VRF the
/// local node is a member of.
pub fn initiate_tap_table(switch_id: SwitchId, vrf_table: &Vec<Vrf>) -> (taps: Vec<VrfId>)
    requires
        table_wf(vrf_table.deep_view()),
    ensures
        ids_unique(taps@),
        forall|id: VrfId|
            #![trigger taps_set(taps@).contains(id)]
            #![trigger tap_should_exist(switch_id, vrf_table.deep_view(), id)]
            taps_set(taps@).contains(id) == tap_should_exist(
                switch_id,
                vrf_table.deep_view(),
                id,
            ),
{
    let ghost dv = vrf_table.deep_view();
    let mut taps: Vec<VrfId> = Vec::new();
    let mut i: usize = 0;
    while i < vrf_table.len()
        invariant
            i <= vrf_table@.len(),
            dv == vrf_table.deep_view(),
            dv.len() == vrf_table@.len(),
            table_wf(dv),
            ids_unique(taps@),
            forall|id: VrfId|
                #![trigger taps@.contains(id)]
                taps@.contains(id) == (exists|k: int|
                    0 <= k < i && (#[trigger] dv[k]).id == id && dv[k].members.contains(
                        switch_id,
                    )),
        decreases vrf_table@.len() - i,
    {
        let ghost taps_before = taps@;
        if members_contain(&vrf_table[i].members, switch_id) {
            let fresh = !members_contain(&taps, vrf_table[i].id);
            if fresh {
                taps.push(vrf_table[i].id);
            }
            proof {
                if fresh {
                    crate::tables::lemma_push_contains(taps_before, dv[i as int].id, 0);
                    assert forall|i2: int, j2: int|
                        0 <= i2 < j2 < taps@.len() implies taps@[i2] != taps@[j2] by {
                        if j2 == taps@.len() - 1 {
                            assert(taps_before[i2] == taps@[i2]);
                            assert(taps_before.contains(taps_before[i2]));
                        }
                    }
                }
                assert forall|id: VrfId|
                    taps@.contains(id) == (exists|k: int|
                        0 <= k < i + 1 && (#[trigger] dv[k]).id == id && dv[k].members.contains(
                            switch_id,
                        )) by {
                    crate::tables::lemma_push_contains(taps_before, dv[i as int].id, id);
                    if taps@.contains(id) {
                        if taps_before.contains(id) {
                            let k = choose|k: int|
                                0 <= k < i && (#[trigger] dv[k]).id == id
                                    && dv[k].members.contains(switch_id);
                            assert(dv[k].id == id && dv[k].members.contains(switch_id));
                        } else {
                            assert(dv[i as int].id == id && dv[i as int].members.contains(
                                switch_id,
                            ));
                        }
                    } else {
                        assert(!taps_before.contains(id));
                        if exists|k: int|
                            0 <= k < i + 1 && (#[trigger] dv[k]).id == id
                                && dv[k].members.contains(switch_id) {
                            let k = choose|k: int|
                                0 <= k < i + 1 && (#[trigger] dv[k]).id == id
                                    && dv[k].members.contains(switch_id);
                            if k < i {
                            } else {
                                assert(taps@.contains(dv[i as int].id));
                            }
                        }
                    }
                }
            }
        } else {
            proof {
                assert forall|id: VrfId|
                    taps@.contains(id) == (exists|k: int|
                        0 <= k < i + 1 && (#[trigger] dv[k]).id == id && dv[k].members.contains(
                            switch_id,
                        )) by {
                    if taps@.contains(id) {
                        let k = choose|k: int|
                            0 <= k < i && (#[trigger] dv[k]).id == id && dv[k].members.contains(
                                switch_id,
                            );
                        assert(dv[k].id == id && dv[k].members.contains(switch_id));
                    } else {
                        if exists|k: int|
                            0 <= k < i + 1 && (#[trigger] dv[k]).id == id
                                && dv[k].members.contains(switch_id) {
                            let k = choose|k: int|
                                0 <= k < i + 1 && (#[trigger] dv[k]).id == id
                                    && dv[k].members.contains(switch_id);
                            assert(k < i);
                        }
                    }
                }
            }
        }
        i = i + 1;
    }
    proof {
        assert forall|id: VrfId|
            taps_set(taps@).contains(id) == tap_should_exist(switch_id, dv, id) by {
            crate::tables::lemma_find_vrf_characterize(dv, id);
            if taps@.contains(id) {
                let k = choose|k: int|
                    0 <= k < dv.len() && (#[trigger] dv[k]).id == id && dv[k].members.contains(
                        switch_id,
                    );
                lemma_find_vrf_unique(dv, id, k);
            } else {
                match find_vrf(dv, id) {
                    Some(v) => {
                        let k0 = choose|k0: int| 0 <= k0 < dv.len() && dv[k0] == v;
                        assert(dv[k0].id == id);
                        if dv[k0].members.contains(switch_id) {
                            assert(taps@.contains(id));
                        }
                    },
                    None => {},
                }
            }
        }
    }
    taps
}

/// If the table holds the id at a position, with unique ids the lookup
/// returns exactly that position's VRF.
pub proof fn lemma_find_vrf_unique(vs: Seq<VrfV>, id: VrfId, p: int)
    requires
        table_wf(vs),
        0 <= p < vs.len(),
        vs[p].id == id,
    ensures
        find_vrf(vs, id) == Some(vs[p]),
{
    crate::tables::lemma_find_vrf_characterize(vs, id);
    let v = find_vrf(vs, id)->Some_0;
    let k = choose|k: int| 0 <= k < vs.len() && vs[k] == v;
    if k != p {
        if k < p {
            assert(vs[k].id != vs[p].id);
        } else {
            assert(vs[p].id != vs[k].id);
        }
    }
}

impl SwitchState {
    /// The node state a loaded cache stands up: its tables, and a TAP
    /// worker recorded for each VRF the local node is a member of.
    pub fn from_cache(local_id: SwitchId, cache: crate::cache::Cache) -> (r: SwitchState)
        requires
            table_wf(cache@.vrf_table),
            no_reserved_member(cache@.vrf_table),
        ensures
            r.local_id == local_id,
            state_wf(&r),
            tap_ok(local_id, r@),
            no_reserved_member(r@.vrfs),
            r@.vrfs == cache@.vrf_table,
            r@.learned == cache@.switch_table,
    {
        let taps = initiate_tap_table(local_id, &cache.vrf_table);
        SwitchState {
            local_id,
            vrfs: cache.vrf_table,
            taps,
            learned: cache.switch_table,
        }
    }
}

// ---------------------------------------------------------------------------
// TAP operations the surrounding process must perform
// ---------------------------------------------------------------------------

/// An instruction to the process: create a TAP worker for a VRF, or tear
/// one down.
pub enum TapOp {
    Create(Vrf),
    Destroy(VrfId),
}

/// Mathematical image of a [`TapOp`].
pub enum TapOpV {
    Create(VrfV),
    Destroy(VrfId),
}

impl View for TapOp {
    type V = TapOpV;

    open spec fn view(&self) -> TapOpV {
        match self {
            TapOp::Create(v) => TapOpV::Create(v@),
            TapOp::Destroy(id) => TapOpV::Destroy(*id),
        }
    }
}

impl DeepView for TapOp {
    type V = TapOpV;

    open spec fn deep_view(&self) -> TapOpV {
        self.view()
    }
}

/// What applying one action produces besides the new state.
pub struct ActionEffects {
    /// Packets to send back on the session the action arrived on; only a
    /// `List` request produces any.
    pub replies: Vec<Packet>,
    /// TAP workers to create or destroy, in order.
    pub tap_ops: Vec<TapOp>,
}

// ---------------------------------------------------------------------------
// The transition, specified
// ---------------------------------------------------------------------------

/// One member joining one VRF: a TAP worker is stood up first (carrying
/// the VRF as it stands) when the joining member is the local node and no
/// worker runs yet; then the member is added.  The reserved operator id
/// never becomes a member.
pub open spec fn spec_add_one(local: SwitchId, s: StateV, id: VrfId, m: SwitchId) -> (
    StateV,
    Seq<TapOpV>,
) {
    if m == CONFIGURATION_SWITCH_ID {
        (s, Seq::empty())
    } else {
        let create_now = m == local && !s.taps.contains(id);
        let ops = if create_now {
            match find_vrf(s.vrfs, id) {
                Some(v) => seq![TapOpV::Create(v)],
                None => Seq::empty(),
            }
        } else {
            Seq::empty()
        };
        let taps = if create_now {
            s.taps.insert(id)
        } else {
            s.taps
        };
        (StateV { vrfs: vrfs_add_member(s.vrfs, id, m), taps, learned: s.learned }, ops)
    }
}

/// Members joining one VRF, first to last.
pub open spec fn spec_add_members(
    local: SwitchId,
    s: StateV,
    id: VrfId,
    ms: Seq<SwitchId>,
) -> (StateV, Seq<TapOpV>)
    decreases ms.len(),
{
    if ms.len() == 0 {
        (s, Seq::empty())
    } else {
        let first = spec_add_one(local, s, id, ms[0]);
        let rest = spec_add_members(local, first.0, id, ms.drop_first());
        (rest.0, first.1 + rest.1)
    }
}

/// One member leaving one VRF.
pub open spec fn spec_remove_one(local: SwitchId, s: StateV, id: VrfId, m: SwitchId) -> (
    StateV,
    Seq<TapOpV>,
) {
    let ops: Seq<TapOpV> = if m == local {
        seq![TapOpV::Destroy(id)]
    } else {
        Seq::empty()
    };
    let taps = if m == local {
        s.taps.remove(id)
    } else {
        s.taps
    };
    (StateV { vrfs: vrfs_remove_member(s.vrfs, id, m), taps, learned: s.learned }, ops)
}

/// Members leaving one VRF, first to last.
pub open spec fn spec_remove_members(
    local: SwitchId,
    s: StateV,
    id: VrfId,
    ms: Seq<SwitchId>,
) -> (StateV, Seq<TapOpV>)
    decreases ms.len(),
{
    if ms.len() == 0 {
        (s, Seq::empty())
    } else {
        let first = spec_remove_one(local, s, id, ms[0]);
        let rest = spec_remove_members(local, first.0, id, ms.drop_first());
        (rest.0, first.1 + rest.1)
    }
}

/// What one control-plane action does to the state, and which TAP
/// operations it entails.
///
/// A `Create` is dropped when its id or its name is taken, and stores its
/// member list as a set without the reserved operator id; a `Delete`
/// always clears the id's worker, entry, and learned bindings; member
/// changes are dropped when the id is unknown, never admit the reserved
/// id, and stand a worker up only when none runs yet.
pub open spec fn spec_step(local: SwitchId, s: StateV, a: VrfActionV) -> (StateV, Seq<TapOpV>) {
    match a {
        VrfActionV::List(_) => (s, Seq::empty()),
        VrfActionV::Create(v) => {
            if contains_id(s.vrfs, v.id) || contains_name(s.vrfs, v.name) {
                (s, Seq::empty())
            } else {
                // The stored member list is a set without the reserved
                // operator id: repeats and id zero are dropped.
                let nv = VrfV { id: v.id, name: v.name, members: members_norm(v.members) };
                if nv.members.contains(local) {
                    (
                        StateV {
                            vrfs: s.vrfs.push(nv),
                            taps: s.taps.insert(nv.id),
                            learned: s.learned,
                        },
                        seq![TapOpV::Create(nv)],
                    )
                } else {
                    (
                        StateV { vrfs: s.vrfs.push(nv), taps: s.taps, learned: s.learned },
                        Seq::empty(),
                    )
                }
            }
        },
        VrfActionV::Delete { id } => (
            StateV {
                vrfs: vrfs_remove_id(s.vrfs, id),
                taps: s.taps.remove(id),
                learned: learned_remove_vrf(s.learned, id),
            },
            seq![TapOpV::Destroy(id)],
        ),
        VrfActionV::AddMember { id, members } => {
            if contains_id(s.vrfs, id) {
                spec_add_members(local, s, id, members)
            } else {
                (s, Seq::empty())
            }
        },
        VrfActionV::RemoveMember { id, members } => {
            if contains_id(s.vrfs, id) {
                spec_remove_members(local, s, id, members)
            } else {
                (s, Seq::empty())
            }
        },
    }
}

/// The state after one action.
pub open spec fn spec_apply(local: SwitchId, s: StateV, a: VrfActionV) -> StateV {
    spec_step(local, s, a).0
}

// ---------------------------------------------------------------------------
// The List reply, specified
// ---------------------------------------------------------------------------

/// The table cut into chunks of at most ten, in order.
pub open spec fn list_chunks(vs: Seq<VrfV>) -> Seq<Seq<VrfV>>
    decreases vs.len(),
{
    if vs.len() == 0 {
        Seq::empty()
    } else if vs.len() <= 10 {
        seq![vs]
    } else {
        seq![vs.take(10)] + list_chunks(vs.skip(10))
    }
}

/// One reply chunk as a packet.
pub open spec fn pack_chunk(c: Seq<VrfV>) -> PacketV {
    PacketV::VrfAction(VrfActionV::List(Some(c)))
}

/// The given chunks as packets, closed by the empty-chunk terminator.
pub open spec fn list_reply_of(chunks: Seq<Seq<VrfV>>) -> Seq<PacketV>
    decreases chunks.len(),
{
    if chunks.len() == 0 {
        seq![pack_chunk(Seq::empty())]
    } else {
        seq![pack_chunk(chunks[0])] + list_reply_of(chunks.drop_first())
    }
}

/// The packets a `List` request is answered with: each chunk, then an
/// empty chunk as terminator.
pub open spec fn list_reply(vs: Seq<VrfV>) -> Seq<PacketV> {
    list_reply_of(list_chunks(vs))
}

/// The chunks hold exactly the table, in order, and each data chunk holds
/// between one and ten VRFs.
pub proof fn lemma_list_chunks_complete(vs: Seq<VrfV>)
    ensures
        list_chunks(vs).flatten() == vs,
        forall|i: int|
            0 <= i < list_chunks(vs).len() ==> 0 < (#[trigger] list_chunks(vs)[i]).len() <= 10,
    decreases vs.len(),
{
    if vs.len() == 0 {
        assert(list_chunks(vs).flatten() =~= vs);
    } else if vs.len() <= 10 {
        assert(seq![vs][0] == vs);
        assert(seq![vs].drop_first() =~= Seq::<Seq<VrfV>>::empty());
        assert(Seq::<Seq<VrfV>>::empty().flatten() =~= Seq::<VrfV>::empty());
        assert(seq![vs].flatten() == seq![vs].first() + seq![vs].drop_first().flatten());
        assert(list_chunks(vs).flatten() =~= vs);
        assert(list_chunks(vs)[0] == vs);
    } else {
        lemma_list_chunks_complete(vs.skip(10));
        let whole = seq![vs.take(10)] + list_chunks(vs.skip(10));
        assert(whole[0] == vs.take(10));
        assert(whole.drop_first() =~= list_chunks(vs.skip(10)));
        assert(whole.flatten() == vs.take(10) + whole.drop_first().flatten());
        assert(list_chunks(vs).flatten() =~= vs);
        assert forall|i: int|
            0 <= i < list_chunks(vs).len() implies 0 < (#[trigger] list_chunks(vs)[i]).len()
            <= 10 by {
            if i > 0 {
                assert(list_chunks(vs)[i] == list_chunks(vs.skip(10))[i - 1]);
            }
        }
    }
}

/// Build the `List` reply for the current table.
pub fn list_reply_packets(vs: &Vec<Vrf>) -> (r: Vec<Packet>)
    ensures
        r.deep_view() == list_reply(vs.deep_view()),
{
    let ghost dv = vs.deep_view();
    let mut r: Vec<Packet> = Vec::new();
    let mut i: usize = 0;
    proof {
        assert(dv.skip(0) =~= dv);
        assert(r.deep_view() =~= Seq::<PacketV>::empty());
    }
    while i < vs.len()
        invariant
            i <= vs@.len(),
            dv == vs.deep_view(),
            dv.len() == vs@.len(),
            list_reply_of(list_chunks(dv)) == r.deep_view() + list_reply_of(
                list_chunks(dv.skip(i as int)),
            ),
        decreases vs@.len() - i,
    {
        let rem = vs.len() - i;
        let k = if rem < LIST_CHUNK_SIZE {
            rem
        } else {
            LIST_CHUNK_SIZE
        };
        let mut chunk: Vec<Vrf> = Vec::new();
        let mut j: usize = 0;
        proof {
            assert(chunk.deep_view() =~= dv.subrange(i as int, i as int));
        }
        while j < k
            invariant
                j <= k,
                i + k <= vs@.len(),
                vs@.len() <= usize::MAX,
                dv == vs.deep_view(),
                dv.len() == vs@.len(),
                chunk.deep_view() =~= dv.subrange(i as int, i as int + j as int),
            decreases k - j,
        {
            let ghost before = chunk.deep_view();
            chunk.push(vs[i + j].duplicate());
            proof {
                assert(chunk.deep_view() =~= before.push(dv[i as int + j as int]));
                assert(chunk.deep_view() =~= dv.subrange(i as int, i as int + j + 1));
            }
            j = j + 1;
        }
        let ghost chunk_v = chunk.deep_view();
        let ghost r_before = r.deep_view();
        r.push(Packet::VrfAction(VrfAction::List(Some(chunk))));
        proof {
            let tail = dv.skip(i as int);
            let tail2 = dv.skip(i as int + k as int);
            assert(tail.len() == dv.len() - i);
            if tail.len() <= 10 {
                assert(chunk_v =~= tail);
                assert(list_chunks(tail) == seq![tail]);
                assert(tail2 =~= Seq::<VrfV>::empty());
                assert(list_chunks(tail2) == Seq::<Seq<VrfV>>::empty());
                assert(seq![tail].drop_first() =~= Seq::<Seq<VrfV>>::empty());
                assert(seq![tail][0] == tail);
                assert(list_reply_of(list_chunks(tail)) == seq![pack_chunk(tail)]
                    + list_reply_of(list_chunks(tail2)));
            } else {
                assert(chunk_v =~= tail.take(10));
                assert(list_chunks(tail) == seq![tail.take(10)] + list_chunks(tail.skip(10)));
                assert(tail.skip(10) =~= tail2);
                let w = seq![tail.take(10)] + list_chunks(tail2);
                assert(w[0] == tail.take(10));
                assert(w.drop_first() =~= list_chunks(tail2));
                assert(list_reply_of(list_chunks(tail)) == seq![pack_chunk(tail.take(10))]
                    + list_reply_of(list_chunks(tail2)));
            }
            assert(r.deep_view() =~= r_before.push(pack_chunk(chunk_v)));
            assert(r_before + (seq![pack_chunk(chunk_v)] + list_reply_of(list_chunks(tail2)))
                =~= r.deep_view() + list_reply_of(list_chunks(tail2)));
        }
        i = i + k;
    }
    proof {
        assert(dv.skip(dv.len() as int) =~= Seq::<VrfV>::empty());
        assert(list_chunks(Seq::<VrfV>::empty()) == Seq::<Seq<VrfV>>::empty());
    }
    let ghost r_before = r.deep_view();
    let empty_chunk: Vec<Vrf> = Vec::new();
    proof {
        assert(empty_chunk.deep_view() =~= Seq::<VrfV>::empty());
    }
    r.push(Packet::VrfAction(VrfAction::List(Some(empty_chunk))));
    proof {
        let term = pack_chunk(Seq::empty());
        assert(list_reply_of(Seq::<Seq<VrfV>>::empty()) == seq![term]);
        assert(r.deep_view() =~= r_before.push(term));
        assert(r.deep_view() =~= r_before + seq![term]);
    }
    r
}

// ---------------------------------------------------------------------------
// The transition, executed
// ---------------------------------------------------------------------------

/// Apply one control-plane action to the node state.
///
/// The new state and the TAP operations are exactly those of
/// [`spec_step`]; a `List` action additionally yields its reply packets
/// and nothing else does.
pub fn process_vrf_action(state: &mut SwitchState, action: VrfAction) -> (effects: ActionEffects)
    requires
        state_wf(old(state)),
    ensures
        state_wf(final(state)),
        final(state).local_id == old(state).local_id,
        final(state)@ == spec_apply(old(state).local_id, old(state)@, action@),
        effects.tap_ops.deep_view() == spec_step(old(state).local_id, old(state)@, action@).1,
        (match action@ {
            VrfActionV::List(_) => effects.replies.deep_view() == list_reply(old(state)@.vrfs),
            _ => effects.replies@.len() == 0,
        }),
{
    let ghost local = state.local_id;
    let ghost s0 = state@;
    let mut replies: Vec<Packet> = Vec::new();
    let mut tap_ops: Vec<TapOp> = Vec::new();
    proof {
        assert(tap_ops.deep_view() =~= Seq::<TapOpV>::empty());
        assert(replies.deep_view() =~= Seq::<PacketV>::empty());
    }
    match action {
        VrfAction::List(_) => {
            replies = list_reply_packets(&state.vrfs);
        },
        VrfAction::Create(vrf) => {
            let id_taken = vrf_contains_id(&state.vrfs, vrf.id);
            let name_taken = vrf_contains_name(&state.vrfs, &vrf.name);
            if !id_taken && !name_taken {
                let vrf = Vrf {
                    id: vrf.id,
                    name: vrf.name,
                    members: members_norm_exec(&vrf.members),
                };
                let ghost vv = vrf@;
                if members_contain(&vrf.members, state.local_id) {
                    taps_insert(&mut state.taps, vrf.id);
                    tap_ops.push(TapOp::Create(vrf.duplicate()));
                    proof {
                        assert(tap_ops.deep_view() =~= seq![TapOpV::Create(vv)]);
                    }
                }
                let ghost vrfs_before = state.vrfs.deep_view();
                state.vrfs.push(vrf);
                proof {
                    assert(state.vrfs.deep_view() =~= vrfs_before.push(vv));
                    lemma_find_vrf_characterize(vrfs_before, vv.id);
                    lemma_find_vrf_by_name_characterize(vrfs_before, vv.name);
                    assert forall|i: int, j: int|
                        0 <= i < j < state.vrfs.deep_view().len() implies state.vrfs.deep_view()[i].id
                        != state.vrfs.deep_view()[j].id && state.vrfs.deep_view()[i].name
                        != state.vrfs.deep_view()[j].name by {
                        let dv = state.vrfs.deep_view();
                        if j == dv.len() - 1 {
                            assert(dv[i] == vrfs_before[i]);
                            assert(vrfs_before[i].id != vv.id);
                            assert(vrfs_before[i].name != vv.name);
                        } else {
                            assert(dv[i] == vrfs_before[i] && dv[j] == vrfs_before[j]);
                        }
                    }
                }
            }
        },
        VrfAction::Delete { id } => {
            taps_remove(&mut state.taps, id);
            remove_vrf_entry(&mut state.vrfs, id);
            forget_vrf(&mut state.learned, id);
            tap_ops.push(TapOp::Destroy(id));
            proof {
                lemma_vrfs_remove_wf(s0.vrfs, id);
                assert(tap_ops.deep_view() =~= seq![TapOpV::Destroy(id)]);
            }
        },
        VrfAction::AddMember { id, members } => {
            match vrf_find_index(&state.vrfs, id) {
                None => {
                },
                Some(idx) => {
                    let ghost ms = members@;
                    let mut j: usize = 0;
                    proof {
                        assert(ms.skip(0) =~= ms);
                    }
                    while j < members.len()
                        invariant
                            j <= ms.len(),
                            members@ == ms,
                            state.local_id == local,
                            state.learned.deep_view() == s0.learned,
                            table_wf(state.vrfs.deep_view()),
                            ids_unique(state.taps@),
                            idx < state.vrfs@.len(),
                            state.vrfs.deep_view()[idx as int].id == id,
                            find_vrf(state.vrfs.deep_view(), id) == Some(
                                state.vrfs.deep_view()[idx as int],
                            ),
                            spec_add_members(local, s0, id, ms).0 == spec_add_members(
                                local,
                                state@,
                                id,
                                ms.skip(j as int),
                            ).0,
                            spec_add_members(local, s0, id, ms).1 == tap_ops.deep_view()
                                + spec_add_members(local, state@, id, ms.skip(j as int)).1,
                        decreases ms.len() - j,
                    {
                        let ghost cur = state@;
                        let ghost dv = state.vrfs.deep_view();
                        let m = members[j];
                        proof {
                            assert(ms.skip(j as int)[0] == ms[j as int]);
                            assert(ms.skip(j as int).drop_first() =~= ms.skip(j + 1));
                        }
                        if m == CONFIGURATION_SWITCH_ID {
                            proof {
                                assert(spec_add_one(local, cur, id, m) == (
                                    cur,
                                    Seq::<TapOpV>::empty(),
                                ));
                                assert(spec_add_members(local, cur, id, ms.skip(j as int)).0
                                    == spec_add_members(local, cur, id, ms.skip(j + 1)).0);
                                assert(spec_add_members(local, cur, id, ms.skip(j as int)).1
                                    == Seq::<TapOpV>::empty() + spec_add_members(
                                    local,
                                    cur,
                                    id,
                                    ms.skip(j + 1),
                                ).1);
                                assert(Seq::<TapOpV>::empty() + spec_add_members(
                                    local,
                                    cur,
                                    id,
                                    ms.skip(j + 1),
                                ).1 =~= spec_add_members(local, cur, id, ms.skip(j + 1)).1);
                            }
                            j = j + 1;
                            continue;
                        }
                        let present = members_contain(&state.vrfs[idx].members, m);
                        let has_tap = members_contain(&state.taps, id);
                        let ghost ops_before = tap_ops.deep_view();
                        if m == state.local_id && !has_tap {
                            let vrf_copy = state.vrfs[idx].duplicate();
                            taps_insert(&mut state.taps, id);
                            tap_ops.push(TapOp::Create(vrf_copy));
                            proof {
                                assert(tap_ops.deep_view() =~= ops_before.push(
                                    TapOpV::Create(dv[idx as int]),
                                ));
                            }
                        }
                        if !present {
                            let slot = &mut state.vrfs[idx];
                            slot.members.push(m);
                        }
                        proof {
                            let one = spec_add_one(local, cur, id, m);
                            lemma_find_vrf_add_member(cur.vrfs, id, m, id);
                            assert(vrfs_add_member(cur.vrfs, id, m).len() == cur.vrfs.len());
                            assert forall|p: int|
                                0 <= p < cur.vrfs.len() implies vrfs_add_member(
                                cur.vrfs,
                                id,
                                m,
                            )[p] == state.vrfs.deep_view()[p] by {
                                if p != idx {
                                    assert(cur.vrfs[p] == cur.vrfs[p]);
                                    assert(cur.vrfs[idx as int].id == id);
                                    if cur.vrfs[p].id == id {
                                        assert(cur.vrfs[p].id == cur.vrfs[idx as int].id);
                                    }
                                }
                            }
                            assert(state.vrfs.deep_view() =~= vrfs_add_member(cur.vrfs, id, m));
                            assert(state.vrfs.deep_view() == one.0.vrfs);
                            assert(taps_set(state.taps@) =~= one.0.taps);
                            assert(state@ == one.0);
                            assert(tap_ops.deep_view() =~= ops_before + one.1);
                            assert(spec_add_members(local, cur, id, ms.skip(j as int)).0
                                == spec_add_members(local, one.0, id, ms.skip(j + 1)).0);
                            assert(spec_add_members(local, cur, id, ms.skip(j as int)).1
                                == one.1 + spec_add_members(local, one.0, id, ms.skip(j + 1)).1);
                            assert(ops_before + (one.1 + spec_add_members(
                                local,
                                one.0,
                                id,
                                ms.skip(j + 1),
                            ).1) =~= tap_ops.deep_view() + spec_add_members(
                                local,
                                one.0,
                                id,
                                ms.skip(j + 1),
                            ).1);
                            lemma_find_vrf_add_member(cur.vrfs, id, m, id);
                        }
                        j = j + 1;
                    }
                    proof {
                        assert(ms.skip(ms.len() as int) =~= Seq::<SwitchId>::empty());
                        assert(spec_add_members(local, state@, id, Seq::empty()).0 == state@);
                        assert(tap_ops.deep_view() + Seq::<TapOpV>::empty() =~= tap_ops.deep_view());
                    }
                },
            }
        },
        VrfAction::RemoveMember { id, members } => {
            match vrf_find_index(&state.vrfs, id) {
                None => {
                },
                Some(idx) => {
                    let ghost ms = members@;
                    let mut j: usize = 0;
                    proof {
                        assert(ms.skip(0) =~= ms);
                    }
                    while j < members.len()
                        invariant
                            j <= ms.len(),
                            members@ == ms,
                            state.local_id == local,
                            state.learned.deep_view() == s0.learned,
                            table_wf(state.vrfs.deep_view()),
                            ids_unique(state.taps@),
                            idx < state.vrfs@.len(),
                            state.vrfs.deep_view()[idx as int].id == id,
                            find_vrf(state.vrfs.deep_view(), id) == Some(
                                state.vrfs.deep_view()[idx as int],
                            ),
                            spec_remove_members(local, s0, id, ms).0 == spec_remove_members(
                                local,
                                state@,
                                id,
                                ms.skip(j as int),
                            ).0,
                            spec_remove_members(local, s0, id, ms).1 == tap_ops.deep_view()
                                + spec_remove_members(local, state@, id, ms.skip(j as int)).1,
                        decreases ms.len() - j,
                    {
                        let ghost cur = state@;
                        let ghost dv = state.vrfs.deep_view();
                        let m = members[j];
                        proof {
                            assert(ms.skip(j as int)[0] == ms[j as int]);
                            assert(ms.skip(j as int).drop_first() =~= ms.skip(j + 1));
                        }
                        let ghost ops_before = tap_ops.deep_view();
                        if m == state.local_id {
                            taps_remove(&mut state.taps, id);
                            tap_ops.push(TapOp::Destroy(id));
                            proof {
                                assert(tap_ops.deep_view() =~= ops_before.push(
                                    TapOpV::Destroy(id),
                                ));
                            }
                        }
                        let filtered = members_remove_exec(&state.vrfs[idx].members, m);
                        let slot = &mut state.vrfs[idx];
                        slot.members = filtered;
                        proof {
                            let one = spec_remove_one(local, cur, id, m);
                            lemma_find_vrf_remove_member(cur.vrfs, id, m, id);
                            assert(vrfs_remove_member(cur.vrfs, id, m).len() == cur.vrfs.len());
                            assert forall|p: int|
                                0 <= p < cur.vrfs.len() implies vrfs_remove_member(
                                cur.vrfs,
                                id,
                                m,
                            )[p] == state.vrfs.deep_view()[p] by {
                                if p != idx {
                                    assert(cur.vrfs[idx as int].id == id);
                                    if cur.vrfs[p].id == id {
                                        assert(cur.vrfs[p].id == cur.vrfs[idx as int].id);
                                    }
                                }
                            }
                            assert(state.vrfs.deep_view() =~= vrfs_remove_member(
                                cur.vrfs,
                                id,
                                m,
                            ));
                            assert(taps_set(state.taps@) =~= one.0.taps);
                            assert(state@ == one.0);
                            assert(tap_ops.deep_view() =~= ops_before + one.1);
                            assert(spec_remove_members(local, cur, id, ms.skip(j as int)).0
                                == spec_remove_members(local, one.0, id, ms.skip(j + 1)).0);
                            assert(spec_remove_members(local, cur, id, ms.skip(j as int)).1
                                == one.1 + spec_remove_members(
                                local,
                                one.0,
                                id,
                                ms.skip(j + 1),
                            ).1);
                            assert(ops_before + (one.1 + spec_remove_members(
                                local,
                                one.0,
                                id,
                                ms.skip(j + 1),
                            ).1) =~= tap_ops.deep_view() + spec_remove_members(
                                local,
                                one.0,
                                id,
                                ms.skip(j + 1),
                            ).1);
                        }
                        j = j + 1;
                    }
                    proof {
                        assert(ms.skip(ms.len() as int) =~= Seq::<SwitchId>::empty());
                        assert(spec_remove_members(local, state@, id, Seq::empty()).0 == state@);
                        assert(tap_ops.deep_view() + Seq::<TapOpV>::empty() =~= tap_ops.deep_view());
                    }
                },
            }
        },
    }
    ActionEffects { replies, tap_ops }
}

// ---------------------------------------------------------------------------
// The TAP-existence invariant: a worker exists exactly for the VRFs the
// local node is a member of.
// ---------------------------------------------------------------------------

/// Whether the table says the local node needs a TAP worker for this id.
pub open spec fn tap_should_exist(local: SwitchId, vs: Seq<VrfV>, id: VrfId) -> bool {
    match find_vrf(vs, id) {
        Some(v) => v.members.contains(local),
        None => false,
    }
}

/// A TAP worker is recorded for a VRF exactly when the VRF is in the
/// table with the local node among its members.
pub open spec fn tap_ok(local: SwitchId, s: StateV) -> bool {
    forall|id: VrfId|
        #![trigger s.taps.contains(id)]
        #![trigger tap_should_exist(local, s.vrfs, id)]
        s.taps.contains(id) == tap_should_exist(local, s.vrfs, id)
}

proof fn lemma_add_one_invariants(local: SwitchId, s: StateV, id: VrfId, m: SwitchId)
    requires
        table_wf(s.vrfs),
        tap_ok(local, s),
        contains_id(s.vrfs, id),
    ensures
        table_wf(spec_add_one(local, s, id, m).0.vrfs),
        tap_ok(local, spec_add_one(local, s, id, m).0),
        contains_id(spec_add_one(local, s, id, m).0.vrfs, id),
        spec_add_one(local, s, id, m).0.learned == s.learned,
{
    if m == CONFIGURATION_SWITCH_ID {
    } else {
        let r = spec_add_one(local, s, id, m).0;
        lemma_find_vrf_characterize(s.vrfs, id);
        let v = find_vrf(s.vrfs, id)->Some_0;
        assert(v.id == id);
        assert forall|i: int, j: int|
            0 <= i < j < r.vrfs.len() implies r.vrfs[i].id != r.vrfs[j].id && r.vrfs[i].name
            != r.vrfs[j].name by {
            assert(s.vrfs[i].id != s.vrfs[j].id && s.vrfs[i].name != s.vrfs[j].name);
            assert(r.vrfs[i].id == s.vrfs[i].id && r.vrfs[i].name == s.vrfs[i].name);
            assert(r.vrfs[j].id == s.vrfs[j].id && r.vrfs[j].name == s.vrfs[j].name);
        }
        lemma_find_vrf_add_member(s.vrfs, id, m, id);
        assert forall|qid: VrfId| r.taps.contains(qid) == tap_should_exist(local, r.vrfs, qid)
            by {
            lemma_find_vrf_add_member(s.vrfs, id, m, qid);
            lemma_find_vrf_characterize(s.vrfs, qid);
            assert(s.taps.contains(qid) == tap_should_exist(local, s.vrfs, qid));
            if qid == id {
                crate::tables::lemma_push_contains(v.members, m, local);
            }
        }
    }
}

proof fn lemma_add_members_invariants(local: SwitchId, s: StateV, id: VrfId, ms: Seq<SwitchId>)
    requires
        table_wf(s.vrfs),
        tap_ok(local, s),
        contains_id(s.vrfs, id),
    ensures
        table_wf(spec_add_members(local, s, id, ms).0.vrfs),
        tap_ok(local, spec_add_members(local, s, id, ms).0),
        contains_id(spec_add_members(local, s, id, ms).0.vrfs, id),
        spec_add_members(local, s, id, ms).0.learned == s.learned,
    decreases ms.len(),
{
    if ms.len() == 0 {
    } else {
        lemma_add_one_invariants(local, s, id, ms[0]);
        lemma_add_members_invariants(local, spec_add_one(local, s, id, ms[0]).0, id, ms.drop_first());
    }
}

proof fn lemma_remove_one_invariants(local: SwitchId, s: StateV, id: VrfId, m: SwitchId)
    requires
        table_wf(s.vrfs),
        tap_ok(local, s),
        contains_id(s.vrfs, id),
    ensures
        table_wf(spec_remove_one(local, s, id, m).0.vrfs),
        tap_ok(local, spec_remove_one(local, s, id, m).0),
        contains_id(spec_remove_one(local, s, id, m).0.vrfs, id),
        spec_remove_one(local, s, id, m).0.learned == s.learned,
{
    let r = spec_remove_one(local, s, id, m).0;
    lemma_find_vrf_characterize(s.vrfs, id);
    let v = find_vrf(s.vrfs, id)->Some_0;
    assert(v.id == id);
    assert forall|i: int, j: int|
        0 <= i < j < r.vrfs.len() implies r.vrfs[i].id != r.vrfs[j].id && r.vrfs[i].name
        != r.vrfs[j].name by {
        assert(s.vrfs[i].id != s.vrfs[j].id && s.vrfs[i].name != s.vrfs[j].name);
        assert(r.vrfs[i].id == s.vrfs[i].id && r.vrfs[i].name == s.vrfs[i].name);
        assert(r.vrfs[j].id == s.vrfs[j].id && r.vrfs[j].name == s.vrfs[j].name);
    }
    lemma_find_vrf_remove_member(s.vrfs, id, m, id);
    assert forall|qid: VrfId| r.taps.contains(qid) == tap_should_exist(local, r.vrfs, qid) by {
        lemma_find_vrf_remove_member(s.vrfs, id, m, qid);
        lemma_find_vrf_characterize(s.vrfs, qid);
        assert(s.taps.contains(qid) == tap_should_exist(local, s.vrfs, qid));
        if qid == id {
            crate::tables::lemma_members_remove_contains(v.members, m, local);
        }
    }
}

proof fn lemma_remove_members_invariants(
    local: SwitchId,
    s: StateV,
    id: VrfId,
    ms: Seq<SwitchId>,
)
    requires
        table_wf(s.vrfs),
        tap_ok(local, s),
        contains_id(s.vrfs, id),
    ensures
        table_wf(spec_remove_members(local, s, id, ms).0.vrfs),
        tap_ok(local, spec_remove_members(local, s, id, ms).0),
        contains_id(spec_remove_members(local, s, id, ms).0.vrfs, id),
        spec_remove_members(local, s, id, ms).0.learned == s.learned,
    decreases ms.len(),
{
    if ms.len() == 0 {
    } else {
        lemma_remove_one_invariants(local, s, id, ms[0]);
        lemma_remove_members_invariants(
            local,
            spec_remove_one(local, s, id, ms[0]).0,
            id,
            ms.drop_first(),
        );
    }
}

/// One action keeps both the table well formed and the TAP workers in
/// step with local membership.
pub proof fn lemma_step_preserves_invariants(local: SwitchId, s: StateV, a: VrfActionV)
    requires
        table_wf(s.vrfs),
        tap_ok(local, s),
    ensures
        table_wf(spec_apply(local, s, a).vrfs),
        tap_ok(local, spec_apply(local, s, a)),
{
    let r = spec_apply(local, s, a);
    match a {
        VrfActionV::List(_) => {
        },
        VrfActionV::Create(v) => {
            if contains_id(s.vrfs, v.id) || contains_name(s.vrfs, v.name) {
            } else {
                let nv = VrfV { id: v.id, name: v.name, members: members_norm(v.members) };
                lemma_find_vrf_characterize(s.vrfs, v.id);
                lemma_find_vrf_by_name_characterize(s.vrfs, v.name);
                assert forall|i: int, j: int|
                    0 <= i < j < r.vrfs.len() implies r.vrfs[i].id != r.vrfs[j].id
                    && r.vrfs[i].name != r.vrfs[j].name by {
                    if j == r.vrfs.len() - 1 {
                        assert(r.vrfs[i] == s.vrfs[i]);
                        assert(s.vrfs[i].id != v.id && s.vrfs[i].name != v.name);
                    } else {
                        assert(r.vrfs[i] == s.vrfs[i] && r.vrfs[j] == s.vrfs[j]);
                    }
                }
                assert forall|qid: VrfId|
                    r.taps.contains(qid) == tap_should_exist(local, r.vrfs, qid) by {
                    lemma_find_vrf_push(s.vrfs, nv, qid);
                    assert(s.taps.contains(qid) == tap_should_exist(local, s.vrfs, qid));
                }
            }
        },
        VrfActionV::Delete { id } => {
            lemma_vrfs_remove_wf(s.vrfs, id);
            assert forall|qid: VrfId|
                r.taps.contains(qid) == tap_should_exist(local, r.vrfs, qid) by {
                crate::tables::lemma_find_vrf_remove_id(s.vrfs, id, qid);
                assert(s.taps.contains(qid) == tap_should_exist(local, s.vrfs, qid));
            }
        },
        VrfActionV::AddMember { id, members } => {
            if contains_id(s.vrfs, id) {
                lemma_add_members_invariants(local, s, id, members);
            }
        },
        VrfActionV::RemoveMember { id, members } => {
            if contains_id(s.vrfs, id) {
                lemma_remove_members_invariants(local, s, id, members);
            }
        },
    }
}

/// A state folded from a sequence of actions.
pub open spec fn spec_apply_all(local: SwitchId, s: StateV, actions: Seq<VrfActionV>) -> StateV
    decreases actions.len(),
{
    if actions.len() == 0 {
        s
    } else {
        spec_apply_all(local, spec_apply(local, s, actions[0]), actions.drop_first())
    }
}

/// After any finite sequence of actions on an initially empty store, a
/// TAP worker is recorded for a VRF exactly when the VRF exists and the
/// local node is among its members.
pub proof fn lemma_tap_existence_any_sequence(local: SwitchId, actions: Seq<VrfActionV>)
    ensures
        table_wf(spec_apply_all(local, empty_state(), actions).vrfs),
        tap_ok(local, spec_apply_all(local, empty_state(), actions)),
{
    assert(tap_ok(local, empty_state())) by {
        assert forall|id: VrfId|
            empty_state().taps.contains(id) == tap_should_exist(
                local,
                empty_state().vrfs,
                id,
            ) by {
            assert(!Set::<VrfId>::empty().contains(id));
        }
    }
    lemma_apply_all_preserves(local, empty_state(), actions);
}

// ---------------------------------------------------------------------------
// Idempotence of the control plane
// ---------------------------------------------------------------------------

proof fn lemma_add_members_basic(local: SwitchId, s: StateV, id: VrfId, ms: Seq<SwitchId>)
    requires
        table_wf(s.vrfs),
        contains_id(s.vrfs, id),
    ensures
        table_wf(spec_add_members(local, s, id, ms).0.vrfs),
        contains_id(spec_add_members(local, s, id, ms).0.vrfs, id),
        spec_add_members(local, s, id, ms).0.learned == s.learned,
        (forall|q: SwitchId|
            find_vrf(s.vrfs, id)->Some_0.members.contains(q) ==> find_vrf(
                spec_add_members(local, s, id, ms).0.vrfs,
                id,
            )->Some_0.members.contains(q)),
        (forall|t: VrfId|
            s.taps.contains(t) ==> spec_add_members(local, s, id, ms).0.taps.contains(t)),
        (forall|q: SwitchId|
            ms.contains(q) && q != CONFIGURATION_SWITCH_ID ==> find_vrf(
                spec_add_members(local, s, id, ms).0.vrfs,
                id,
            )->Some_0.members.contains(q)),
        local != CONFIGURATION_SWITCH_ID && ms.contains(local) ==> spec_add_members(
            local,
            s,
            id,
            ms,
        ).0.taps.contains(id),
    decreases ms.len(),
{
    let r = spec_add_members(local, s, id, ms).0;
    lemma_find_vrf_characterize(s.vrfs, id);
    let v = find_vrf(s.vrfs, id)->Some_0;
    if ms.len() == 0 {
        assert(forall|q: SwitchId| !ms.contains(q));
    } else {
        let m = ms[0];
        let s1 = spec_add_one(local, s, id, m).0;
        if m == CONFIGURATION_SWITCH_ID {
            assert(s1 == s);
            lemma_add_members_basic(local, s, id, ms.drop_first());
            assert forall|q: SwitchId|
                ms.contains(q) && q != CONFIGURATION_SWITCH_ID implies find_vrf(
                r.vrfs,
                id,
            )->Some_0.members.contains(q) by {
                crate::tables::lemma_head_contains(ms, q);
                assert(ms.drop_first().contains(q));
            }
            if local != CONFIGURATION_SWITCH_ID && ms.contains(local) {
                crate::tables::lemma_head_contains(ms, local);
                assert(ms.drop_first().contains(local));
            }
        } else {
            lemma_find_vrf_add_member(s.vrfs, id, m, id);
            assert(find_vrf(s1.vrfs, id) == Some(vrf_with_member(v, m)));
            assert(table_wf(s1.vrfs)) by {
                assert forall|i: int, j: int|
                    0 <= i < j < s1.vrfs.len() implies s1.vrfs[i].id != s1.vrfs[j].id
                    && s1.vrfs[i].name != s1.vrfs[j].name by {
                    assert(s.vrfs[i].id != s.vrfs[j].id && s.vrfs[i].name != s.vrfs[j].name);
                    assert(s1.vrfs[i].id == s.vrfs[i].id && s1.vrfs[i].name == s.vrfs[i].name);
                    assert(s1.vrfs[j].id == s.vrfs[j].id && s1.vrfs[j].name == s.vrfs[j].name);
                }
            }
            lemma_add_members_basic(local, s1, id, ms.drop_first());
            crate::tables::lemma_push_contains(v.members, m, m);
            assert(vrf_with_member(v, m).members.contains(m));
            assert forall|q: SwitchId|
                ms.contains(q) && q != CONFIGURATION_SWITCH_ID implies find_vrf(
                r.vrfs,
                id,
            )->Some_0.members.contains(q) by {
                crate::tables::lemma_head_contains(ms, q);
                crate::tables::lemma_push_contains(v.members, m, q);
                assert(find_vrf(s1.vrfs, id)->Some_0.members == vrf_with_member(v, m).members);
                if q == m || v.members.contains(q) {
                    assert(find_vrf(s1.vrfs, id)->Some_0.members.contains(q));
                } else {
                    assert(ms.drop_first().contains(q));
                }
            }
            assert forall|t: VrfId| s.taps.contains(t) implies r.taps.contains(t) by {
                assert(s1.taps.contains(t));
            }
            if local != CONFIGURATION_SWITCH_ID && ms.contains(local) {
                crate::tables::lemma_head_contains(ms, local);
                if m == local {
                    assert(s1.taps.contains(id));
                    assert(r.taps.contains(id));
                } else {
                    assert(ms.drop_first().contains(local));
                }
            }
            assert forall|q: SwitchId|
                find_vrf(s.vrfs, id)->Some_0.members.contains(q) implies find_vrf(
                r.vrfs,
                id,
            )->Some_0.members.contains(q) by {
                crate::tables::lemma_push_contains(v.members, m, q);
                assert(find_vrf(s1.vrfs, id)->Some_0.members.contains(q));
            }
        }
    }
}

proof fn lemma_add_members_noop(local: SwitchId, s: StateV, id: VrfId, ms: Seq<SwitchId>)
    requires
        table_wf(s.vrfs),
        contains_id(s.vrfs, id),
        forall|q: SwitchId|
            ms.contains(q) && q != CONFIGURATION_SWITCH_ID ==> find_vrf(
                s.vrfs,
                id,
            )->Some_0.members.contains(q),
        local != CONFIGURATION_SWITCH_ID && ms.contains(local) ==> s.taps.contains(id),
    ensures
        spec_add_members(local, s, id, ms).0 == s,
    decreases ms.len(),
{
    if ms.len() == 0 {
    } else {
        let m = ms[0];
        let s1 = spec_add_one(local, s, id, m).0;
        if m == CONFIGURATION_SWITCH_ID {
            assert(s1 == s);
        } else {
            assert(ms.contains(m));
            lemma_find_vrf_characterize(s.vrfs, id);
            let v = find_vrf(s.vrfs, id)->Some_0;
            assert(v.members.contains(m));
            assert(vrf_with_member(v, m) == v);
            assert(s1.vrfs =~= s.vrfs) by {
                assert forall|p: int| 0 <= p < s.vrfs.len() implies s1.vrfs[p] == s.vrfs[p] by {
                    if s.vrfs[p].id == id {
                        lemma_find_vrf_unique(s.vrfs, id, p);
                    }
                }
            }
            if m == local {
                assert(s.taps.contains(id));
            }
            assert(s1.taps == s.taps);
            assert(s1 =~= s);
        }
        assert forall|q: SwitchId|
            ms.drop_first().contains(q) && q != CONFIGURATION_SWITCH_ID implies find_vrf(
            s.vrfs,
            id,
        )->Some_0.members.contains(q) by {
            crate::tables::lemma_head_contains(ms, q);
        }
        if local != CONFIGURATION_SWITCH_ID && ms.drop_first().contains(local) {
            crate::tables::lemma_head_contains(ms, local);
        }
        lemma_add_members_noop(local, s, id, ms.drop_first());
        assert(spec_add_members(local, s1, id, ms.drop_first()).0 == spec_add_members(
            local,
            s,
            id,
            ms.drop_first(),
        ).0);
    }
}

proof fn lemma_remove_members_basic(local: SwitchId, s: StateV, id: VrfId, ms: Seq<SwitchId>)
    requires
        table_wf(s.vrfs),
        contains_id(s.vrfs, id),
    ensures
        table_wf(spec_remove_members(local, s, id, ms).0.vrfs),
        contains_id(spec_remove_members(local, s, id, ms).0.vrfs, id),
        spec_remove_members(local, s, id, ms).0.learned == s.learned,
        (forall|q: SwitchId|
            !find_vrf(s.vrfs, id)->Some_0.members.contains(q) ==> !find_vrf(
                spec_remove_members(local, s, id, ms).0.vrfs,
                id,
            )->Some_0.members.contains(q)),
        (forall|t: VrfId|
            !s.taps.contains(t) ==> !spec_remove_members(local, s, id, ms).0.taps.contains(t)),
        (forall|q: SwitchId|
            ms.contains(q) ==> !find_vrf(
                spec_remove_members(local, s, id, ms).0.vrfs,
                id,
            )->Some_0.members.contains(q)),
        ms.contains(local) ==> !spec_remove_members(local, s, id, ms).0.taps.contains(id),
    decreases ms.len(),
{
    let r = spec_remove_members(local, s, id, ms).0;
    lemma_find_vrf_characterize(s.vrfs, id);
    let v = find_vrf(s.vrfs, id)->Some_0;
    if ms.len() == 0 {
        assert(forall|q: SwitchId| !ms.contains(q));
    } else {
        let m = ms[0];
        let s1 = spec_remove_one(local, s, id, m).0;
        lemma_find_vrf_remove_member(s.vrfs, id, m, id);
        assert(find_vrf(s1.vrfs, id) == Some(vrf_without_member(v, m)));
        assert(table_wf(s1.vrfs)) by {
            assert forall|i: int, j: int|
                0 <= i < j < s1.vrfs.len() implies s1.vrfs[i].id != s1.vrfs[j].id
                && s1.vrfs[i].name != s1.vrfs[j].name by {
                assert(s.vrfs[i].id != s.vrfs[j].id && s.vrfs[i].name != s.vrfs[j].name);
                assert(s1.vrfs[i].id == s.vrfs[i].id && s1.vrfs[i].name == s.vrfs[i].name);
                assert(s1.vrfs[j].id == s.vrfs[j].id && s1.vrfs[j].name == s.vrfs[j].name);
            }
        }
        lemma_remove_members_basic(local, s1, id, ms.drop_first());
        crate::tables::lemma_members_remove_contains(v.members, m, m);
        assert(!vrf_without_member(v, m).members.contains(m));
        assert forall|q: SwitchId| ms.contains(q) implies !find_vrf(
            r.vrfs,
            id,
        )->Some_0.members.contains(q) by {
            crate::tables::lemma_head_contains(ms, q);
            crate::tables::lemma_members_remove_contains(v.members, m, q);
            assert(find_vrf(s1.vrfs, id)->Some_0.members == vrf_without_member(v, m).members);
            if q == m || !v.members.contains(q) {
                assert(!find_vrf(s1.vrfs, id)->Some_0.members.contains(q));
            } else {
                assert(ms.drop_first().contains(q));
            }
        }
        assert forall|t: VrfId| !s.taps.contains(t) implies !r.taps.contains(t) by {
            assert(!s1.taps.contains(t));
        }
        if ms.contains(local) {
            crate::tables::lemma_head_contains(ms, local);
            if m == local {
                assert(!s1.taps.contains(id));
                assert(!r.taps.contains(id));
            } else {
                assert(ms.drop_first().contains(local));
            }
        }
        assert forall|q: SwitchId|
            !find_vrf(s.vrfs, id)->Some_0.members.contains(q) implies !find_vrf(
            r.vrfs,
            id,
        )->Some_0.members.contains(q) by {
            crate::tables::lemma_members_remove_contains(v.members, m, q);
            assert(!find_vrf(s1.vrfs, id)->Some_0.members.contains(q));
        }
    }
}

proof fn lemma_remove_members_noop(local: SwitchId, s: StateV, id: VrfId, ms: Seq<SwitchId>)
    requires
        table_wf(s.vrfs),
        contains_id(s.vrfs, id),
        forall|q: SwitchId|
            ms.contains(q) ==> !find_vrf(s.vrfs, id)->Some_0.members.contains(q),
        ms.contains(local) ==> !s.taps.contains(id),
    ensures
        spec_remove_members(local, s, id, ms).0 == s,
    decreases ms.len(),
{
    if ms.len() == 0 {
    } else {
        let m = ms[0];
        assert(ms.contains(m));
        lemma_find_vrf_characterize(s.vrfs, id);
        let v = find_vrf(s.vrfs, id)->Some_0;
        assert(!v.members.contains(m));
        crate::tables::lemma_members_remove_noop(v.members, m);
        assert(vrf_without_member(v, m) =~= v);
        let s1 = spec_remove_one(local, s, id, m).0;
        assert(s1.vrfs =~= s.vrfs) by {
            assert forall|p: int| 0 <= p < s.vrfs.len() implies s1.vrfs[p] == s.vrfs[p] by {
                if s.vrfs[p].id == id {
                    lemma_find_vrf_unique(s.vrfs, id, p);
                }
            }
        }
        if m == local {
            assert(!s.taps.contains(id));
            assert(s1.taps =~= s.taps);
        }
        assert(s1 =~= s);
        assert forall|q: SwitchId| ms.drop_first().contains(q) implies !find_vrf(
            s.vrfs,
            id,
        )->Some_0.members.contains(q) by {
            crate::tables::lemma_head_contains(ms, q);
        }
        if ms.drop_first().contains(local) {
            crate::tables::lemma_head_contains(ms, local);
        }
        lemma_remove_members_noop(local, s, id, ms.drop_first());
        assert(spec_remove_members(local, s1, id, ms.drop_first()).0 == spec_remove_members(
            local,
            s,
            id,
            ms.drop_first(),
        ).0);
    }
}

proof fn lemma_learned_remove_idem(l: Seq<LearnEntryV>, id: VrfId)
    ensures
        learned_remove_vrf(learned_remove_vrf(l, id), id) == learned_remove_vrf(l, id),
    decreases l.len(),
{
    if l.len() == 0 {
    } else {
        lemma_learned_remove_idem(l.drop_first(), id);
        if l[0].vrf_id == id {
        } else {
            let rest = learned_remove_vrf(l.drop_first(), id);
            let whole = seq![l[0]] + rest;
            assert(whole[0] == l[0]);
            assert(whole.drop_first() =~= rest);
            assert(learned_remove_vrf(whole, id) == seq![l[0]] + learned_remove_vrf(rest, id));
        }
    }
}

/// Applying the same action twice leaves the state exactly as applying
/// it once: a duplicate `Create` is dropped, a second `Delete` removes
/// nothing, and member changes already made change nothing.
pub proof fn lemma_apply_idempotent(local: SwitchId, s: StateV, a: VrfActionV)
    requires
        table_wf(s.vrfs),
    ensures
        spec_apply(local, spec_apply(local, s, a), a) == spec_apply(local, s, a),
{
    let s1 = spec_apply(local, s, a);
    match a {
        VrfActionV::List(_) => {
        },
        VrfActionV::Create(v) => {
            if contains_id(s.vrfs, v.id) || contains_name(s.vrfs, v.name) {
            } else {
                let nv = VrfV { id: v.id, name: v.name, members: members_norm(v.members) };
                lemma_find_vrf_push(s.vrfs, nv, v.id);
                assert(contains_id(s1.vrfs, v.id));
            }
        },
        VrfActionV::Delete { id } => {
            crate::tables::lemma_find_vrf_remove_id(s.vrfs, id, id);
            crate::tables::lemma_remove_id_noop(s1.vrfs, id);
            lemma_learned_remove_idem(s.learned, id);
            assert(s1.taps.remove(id) =~= s1.taps);
            assert(spec_apply(local, s1, a) =~= s1);
        },
        VrfActionV::AddMember { id, members } => {
            if contains_id(s.vrfs, id) {
                lemma_add_members_basic(local, s, id, members);
                lemma_add_members_noop(local, s1, id, members);
            }
        },
        VrfActionV::RemoveMember { id, members } => {
            if contains_id(s.vrfs, id) {
                lemma_remove_members_basic(local, s, id, members);
                lemma_remove_members_noop(local, s1, id, members);
            }
        },
    }
}

// ---------------------------------------------------------------------------
// The reserved operator id never becomes a member
// ---------------------------------------------------------------------------

/// No VRF in the table counts the reserved operator id among its members.
pub open spec fn no_reserved_member(vs: Seq<VrfV>) -> bool {
    forall|i: int|
        0 <= i < vs.len() ==> !(#[trigger] vs[i]).members.contains(CONFIGURATION_SWITCH_ID)
}

proof fn lemma_add_members_no_reserved(local: SwitchId, s: StateV, id: VrfId, ms: Seq<SwitchId>)
    requires
        no_reserved_member(s.vrfs),
    ensures
        no_reserved_member(spec_add_members(local, s, id, ms).0.vrfs),
    decreases ms.len(),
{
    if ms.len() == 0 {
    } else {
        let m = ms[0];
        let s1 = spec_add_one(local, s, id, m).0;
        if m == CONFIGURATION_SWITCH_ID {
        } else {
            assert forall|i: int|
                0 <= i < s1.vrfs.len() implies !(#[trigger] s1.vrfs[i]).members.contains(
                CONFIGURATION_SWITCH_ID,
            ) by {
                assert(!s.vrfs[i].members.contains(CONFIGURATION_SWITCH_ID));
                crate::tables::lemma_push_contains(
                    s.vrfs[i].members,
                    m,
                    CONFIGURATION_SWITCH_ID,
                );
            }
        }
        lemma_add_members_no_reserved(local, s1, id, ms.drop_first());
    }
}

proof fn lemma_remove_members_no_reserved(
    local: SwitchId,
    s: StateV,
    id: VrfId,
    ms: Seq<SwitchId>,
)
    requires
        no_reserved_member(s.vrfs),
    ensures
        no_reserved_member(spec_remove_members(local, s, id, ms).0.vrfs),
    decreases ms.len(),
{
    if ms.len() == 0 {
    } else {
        let m = ms[0];
        let s1 = spec_remove_one(local, s, id, m).0;
        assert forall|i: int|
            0 <= i < s1.vrfs.len() implies !(#[trigger] s1.vrfs[i]).members.contains(
            CONFIGURATION_SWITCH_ID,
        ) by {
            assert(!s.vrfs[i].members.contains(CONFIGURATION_SWITCH_ID));
            crate::tables::lemma_members_remove_contains(
                s.vrfs[i].members,
                m,
                CONFIGURATION_SWITCH_ID,
            );
        }
        lemma_remove_members_no_reserved(local, s1, id, ms.drop_first());
    }
}

/// One action keeps the reserved operator id out of every member set: a
/// `Create` stores a normalised list, and member changes never admit it.
pub proof fn lemma_step_preserves_no_reserved(local: SwitchId, s: StateV, a: VrfActionV)
    requires
        no_reserved_member(s.vrfs),
    ensures
        no_reserved_member(spec_apply(local, s, a).vrfs),
{
    let r = spec_apply(local, s, a);
    match a {
        VrfActionV::List(_) => {
        },
        VrfActionV::Create(v) => {
            if contains_id(s.vrfs, v.id) || contains_name(s.vrfs, v.name) {
            } else {
                let nv = VrfV { id: v.id, name: v.name, members: members_norm(v.members) };
                lemma_members_norm_contains(v.members, CONFIGURATION_SWITCH_ID);
                assert forall|i: int|
                    0 <= i < r.vrfs.len() implies !(#[trigger] r.vrfs[i]).members.contains(
                    CONFIGURATION_SWITCH_ID,
                ) by {
                    if i < r.vrfs.len() - 1 {
                        assert(r.vrfs[i] == s.vrfs[i]);
                        assert(!s.vrfs[i].members.contains(CONFIGURATION_SWITCH_ID));
                    } else {
                        assert(r.vrfs[i] == nv);
                    }
                }
            }
        },
        VrfActionV::Delete { id } => {
            assert forall|i: int|
                0 <= i < r.vrfs.len() implies !(#[trigger] r.vrfs[i]).members.contains(
                CONFIGURATION_SWITCH_ID,
            ) by {
                assert(r.vrfs.contains(r.vrfs[i]));
                crate::tables::lemma_vrfs_remove_contains(s.vrfs, id, r.vrfs[i]);
                let k = choose|k: int| 0 <= k < s.vrfs.len() && s.vrfs[k] == r.vrfs[i];
                assert(!s.vrfs[k].members.contains(CONFIGURATION_SWITCH_ID));
            }
        },
        VrfActionV::AddMember { id, members } => {
            if contains_id(s.vrfs, id) {
                lemma_add_members_no_reserved(local, s, id, members);
            }
        },
        VrfActionV::RemoveMember { id, members } => {
            if contains_id(s.vrfs, id) {
                lemma_remove_members_no_reserved(local, s, id, members);
            }
        },
    }
}

/// Every stored member list is a set: no switch id appears twice.
pub open spec fn members_are_sets(vs: Seq<VrfV>) -> bool {
    forall|i: int| 0 <= i < vs.len() ==> ids_unique((#[trigger] vs[i]).members)
}

proof fn lemma_add_members_sets(local: SwitchId, s: StateV, id: VrfId, ms: Seq<SwitchId>)
    requires
        members_are_sets(s.vrfs),
    ensures
        members_are_sets(spec_add_members(local, s, id, ms).0.vrfs),
    decreases ms.len(),
{
    if ms.len() == 0 {
    } else {
        let m = ms[0];
        let s1 = spec_add_one(local, s, id, m).0;
        if m == CONFIGURATION_SWITCH_ID {
        } else {
            assert forall|i: int|
                0 <= i < s1.vrfs.len() implies ids_unique((#[trigger] s1.vrfs[i]).members) by {
                assert(ids_unique(s.vrfs[i].members));
                let v = s.vrfs[i];
                if v.id == id && !v.members.contains(m) {
                    let pushed = v.members.push(m);
                    assert forall|a: int, b: int|
                        0 <= a < b < pushed.len() implies pushed[a] != pushed[b] by {
                        if b == pushed.len() - 1 {
                            assert(pushed[a] == v.members[a]);
                            if v.members[a] == m {
                                assert(v.members.contains(m));
                            }
                        }
                    }
                }
            }
        }
        lemma_add_members_sets(local, s1, id, ms.drop_first());
    }
}

proof fn lemma_remove_members_sets(local: SwitchId, s: StateV, id: VrfId, ms: Seq<SwitchId>)
    requires
        members_are_sets(s.vrfs),
    ensures
        members_are_sets(spec_remove_members(local, s, id, ms).0.vrfs),
    decreases ms.len(),
{
    if ms.len() == 0 {
    } else {
        let m = ms[0];
        let s1 = spec_remove_one(local, s, id, m).0;
        assert forall|i: int|
            0 <= i < s1.vrfs.len() implies ids_unique((#[trigger] s1.vrfs[i]).members) by {
            assert(ids_unique(s.vrfs[i].members));
            crate::tables::lemma_members_remove_unique(s.vrfs[i].members, m);
        }
        lemma_remove_members_sets(local, s1, id, ms.drop_first());
    }
}

/// One action keeps every stored member list free of repeats: a `Create`
/// stores a normalised list, a join adds a member only when absent, and
/// a leave only removes.
pub proof fn lemma_step_preserves_members_sets(local: SwitchId, s: StateV, a: VrfActionV)
    requires
        members_are_sets(s.vrfs),
    ensures
        members_are_sets(spec_apply(local, s, a).vrfs),
{
    let r = spec_apply(local, s, a);
    match a {
        VrfActionV::List(_) => {
        },
        VrfActionV::Create(v) => {
            if contains_id(s.vrfs, v.id) || contains_name(s.vrfs, v.name) {
            } else {
                let nv = VrfV { id: v.id, name: v.name, members: members_norm(v.members) };
                crate::tables::lemma_members_norm_unique(v.members);
                assert forall|i: int|
                    0 <= i < r.vrfs.len() implies ids_unique((#[trigger] r.vrfs[i]).members)
                    by {
                    if i < r.vrfs.len() - 1 {
                        assert(r.vrfs[i] == s.vrfs[i]);
                        assert(ids_unique(s.vrfs[i].members));
                    } else {
                        assert(r.vrfs[i] == nv);
                    }
                }
            }
        },
        VrfActionV::Delete { id } => {
            assert forall|i: int|
                0 <= i < r.vrfs.len() implies ids_unique((#[trigger] r.vrfs[i]).members) by {
                assert(r.vrfs.contains(r.vrfs[i]));
                crate::tables::lemma_vrfs_remove_contains(s.vrfs, id, r.vrfs[i]);
                let k = choose|k: int| 0 <= k < s.vrfs.len() && s.vrfs[k] == r.vrfs[i];
                assert(ids_unique(s.vrfs[k].members));
            }
        },
        VrfActionV::AddMember { id, members } => {
            if contains_id(s.vrfs, id) {
                lemma_add_members_sets(local, s, id, members);
            }
        },
        VrfActionV::RemoveMember { id, members } => {
            if contains_id(s.vrfs, id) {
                lemma_remove_members_sets(local, s, id, members);
            }
        },
    }
}

/// After any finite sequence of actions on an initially empty store,
/// every stored member list is a set.
pub proof fn lemma_members_sets_any_sequence(local: SwitchId, actions: Seq<VrfActionV>)
    ensures
        members_are_sets(spec_apply_all(local, empty_state(), actions).vrfs),
{
    lemma_members_sets_fold(local, empty_state(), actions);
}

proof fn lemma_members_sets_fold(local: SwitchId, s: StateV, actions: Seq<VrfActionV>)
    requires
        members_are_sets(s.vrfs),
    ensures
        members_are_sets(spec_apply_all(local, s, actions).vrfs),
    decreases actions.len(),
{
    if actions.len() == 0 {
    } else {
        lemma_step_preserves_members_sets(local, s, actions[0]);
        lemma_members_sets_fold(local, spec_apply(local, s, actions[0]), actions.drop_first());
    }
}

/// After any finite sequence of actions on an initially empty store, no
/// member set holds the reserved operator id.
pub proof fn lemma_no_reserved_any_sequence(local: SwitchId, actions: Seq<VrfActionV>)
    ensures
        no_reserved_member(spec_apply_all(local, empty_state(), actions).vrfs),
{
    lemma_no_reserved_fold(local, empty_state(), actions);
}

proof fn lemma_no_reserved_fold(local: SwitchId, s: StateV, actions: Seq<VrfActionV>)
    requires
        no_reserved_member(s.vrfs),
    ensures
        no_reserved_member(spec_apply_all(local, s, actions).vrfs),
    decreases actions.len(),
{
    if actions.len() == 0 {
    } else {
        lemma_step_preserves_no_reserved(local, s, actions[0]);
        lemma_no_reserved_fold(local, spec_apply(local, s, actions[0]), actions.drop_first());
    }
}

proof fn lemma_apply_all_preserves(local: SwitchId, s: StateV, actions: Seq<VrfActionV>)
    requires
        table_wf(s.vrfs),
        tap_ok(local, s),
    ensures
        table_wf(spec_apply_all(local, s, actions).vrfs),
        tap_ok(local, spec_apply_all(local, s, actions)),
    decreases actions.len(),
{
    if actions.len() == 0 {
    } else {
        lemma_step_preserves_invariants(local, s, actions[0]);
        lemma_apply_all_preserves(local, spec_apply(local, s, actions[0]), actions.drop_first());
    }
}

} // verus!
