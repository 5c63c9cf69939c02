//! The data model: switch identifiers, VRFs, and the packets exchanged
//! between peers and with the operator.

use vstd::prelude::*;

verus! {

/// Cluster-unique identifier of a daemon; `0` is reserved for the operator.
pub type SwitchId = u32;

/// Identifier of a virtual routing domain, unique within the cluster.
pub type VrfId = u32;

/// The reserved identifier with which the operator's control connection
/// introduces itself; no daemon may adopt it as its own.
pub const CONFIGURATION_SWITCH_ID: SwitchId = 0;

/// Largest block read from a TAP device or a socket in one call.
pub const MAX_BUFFER_SIZE: usize = 65535;

/// A virtual routing domain: its identity and the switches it spans.
pub struct Vrf {
    pub id: VrfId,
    pub name: String,
    pub members: Vec<SwitchId>,
}

/// Mathematical image of a [`Vrf`].
pub struct VrfV {
    pub id: VrfId,
    pub name: Seq<char>,
    pub members: Seq<SwitchId>,
}

impl View for Vrf {
    type V = VrfV;

    open spec fn view(&self) -> VrfV {
        VrfV { id: self.id, name: self.name@, members: self.members@ }
    }
}

impl DeepView for Vrf {
    type V = VrfV;

    open spec fn deep_view(&self) -> VrfV {
        self.view()
    }
}

impl Vrf {
    /// An exact copy; `Clone` is deliberately not derived so that the
    /// copy's relation to its source is stated.
    pub fn duplicate(&self) -> (r: Vrf)
        ensures
            r@ == self@,
    {
        Vrf { id: self.id, name: clone_string(&self.name), members: clone_u32_vec(&self.members) }
    }
}

/// Heartbeat marker exchanged to keep a session alive.
pub struct Ping;

/// An Ethernet frame carried between peers, tagged with its VRF.
pub struct Data {
    pub vrf_id: VrfId,
    pub data: Vec<u8>,
}

/// Mathematical image of a [`Data`] frame.
pub struct DataV {
    pub vrf_id: VrfId,
    pub data: Seq<u8>,
}

impl View for Data {
    type V = DataV;

    open spec fn view(&self) -> DataV {
        DataV { vrf_id: self.vrf_id, data: self.data@ }
    }
}

impl DeepView for Data {
    type V = DataV;

    open spec fn deep_view(&self) -> DataV {
        self.view()
    }
}

/// A control-plane request: either a query of the table or a mutation of it.
pub enum VrfAction {
    List(Option<Vec<Vrf>>),
    Create(Vrf),
    Delete { id: VrfId },
    AddMember { id: VrfId, members: Vec<SwitchId> },
    RemoveMember { id: VrfId, members: Vec<SwitchId> },
}

/// Mathematical image of a [`VrfAction`].
pub enum VrfActionV {
    List(Option<Seq<VrfV>>),
    Create(VrfV),
    Delete { id: VrfId },
    AddMember { id: VrfId, members: Seq<SwitchId> },
    RemoveMember { id: VrfId, members: Seq<SwitchId> },
}

impl View for VrfAction {
    type V = VrfActionV;

    open spec fn view(&self) -> VrfActionV {
        match self {
            VrfAction::List(None) => VrfActionV::List(None),
            VrfAction::List(Some(vrfs)) => VrfActionV::List(Some(vrfs.deep_view())),
            VrfAction::Create(vrf) => VrfActionV::Create(vrf@),
            VrfAction::Delete { id } => VrfActionV::Delete { id: *id },
            VrfAction::AddMember { id, members } => VrfActionV::AddMember {
                id: *id,
                members: members@,
            },
            VrfAction::RemoveMember { id, members } => VrfActionV::RemoveMember {
                id: *id,
                members: members@,
            },
        }
    }
}

impl DeepView for VrfAction {
    type V = VrfActionV;

    open spec fn deep_view(&self) -> VrfActionV {
        self.view()
    }
}

/// Exact copy of a VRF list.
pub fn clone_vrf_vec(vs: &Vec<Vrf>) -> (r: Vec<Vrf>)
    ensures
        r.deep_view() == vs.deep_view(),
{
    let mut r: Vec<Vrf> = Vec::new();
    let mut i: usize = 0;
    proof {
        assert(r.deep_view() =~= vs.deep_view().subrange(0, 0));
    }
    while i < vs.len()
        invariant
            i <= vs@.len(),
            vs.deep_view().len() == vs@.len(),
            r.deep_view() =~= vs.deep_view().subrange(0, i as int),
        decreases vs@.len() - i,
    {
        let ghost before = r.deep_view();
        r.push(vs[i].duplicate());
        proof {
            assert(r.deep_view() =~= before.push(vs.deep_view()[i as int]));
            assert(r.deep_view() =~= vs.deep_view().subrange(0, i + 1));
        }
        i = i + 1;
    }
    proof {
        assert(vs.deep_view().subrange(0, vs@.len() as int) =~= vs.deep_view());
    }
    r
}

impl VrfAction {
    /// An exact copy, with the relation stated.
    pub fn duplicate(&self) -> (r: VrfAction)
        ensures
            r@ == self@,
    {
        match self {
            VrfAction::List(None) => VrfAction::List(None),
            VrfAction::List(Some(vrfs)) => VrfAction::List(Some(clone_vrf_vec(vrfs))),
            VrfAction::Create(vrf) => VrfAction::Create(vrf.duplicate()),
            VrfAction::Delete { id } => VrfAction::Delete { id: *id },
            VrfAction::AddMember { id, members } => VrfAction::AddMember {
                id: *id,
                members: clone_u32_vec(members),
            },
            VrfAction::RemoveMember { id, members } => VrfAction::RemoveMember {
                id: *id,
                members: clone_u32_vec(members),
            },
        }
    }
}

/// One message on the wire: heartbeat, control, or an Ethernet frame.
pub enum Packet {
    Ping(Ping),
    VrfAction(VrfAction),
    Data(Data),
}

/// Mathematical image of a [`Packet`].
pub enum PacketV {
    Ping,
    VrfAction(VrfActionV),
    Data(DataV),
}

impl View for Packet {
    type V = PacketV;

    open spec fn view(&self) -> PacketV {
        match self {
            Packet::Ping(_) => PacketV::Ping,
            Packet::VrfAction(a) => PacketV::VrfAction(a@),
            Packet::Data(d) => PacketV::Data(d@),
        }
    }
}

impl DeepView for Packet {
    type V = PacketV;

    open spec fn deep_view(&self) -> PacketV {
        self.view()
    }
}

impl Data {
    /// An exact copy, with the relation stated.
    pub fn duplicate(&self) -> (r: Data)
        ensures
            r@ == self@,
    {
        Data { vrf_id: self.vrf_id, data: clone_u8_vec(&self.data) }
    }
}

impl Packet {
    /// An exact copy, with the relation stated.
    pub fn duplicate(&self) -> (r: Packet)
        ensures
            r@ == self@,
    {
        match self {
            Packet::Ping(_) => Packet::Ping(Ping),
            Packet::VrfAction(a) => Packet::VrfAction(a.duplicate()),
            Packet::Data(d) => Packet::Data(d.duplicate()),
        }
    }
}

/// A mutating action changes the table; `List` only reads it.
pub open spec fn is_mutation(a: VrfActionV) -> bool {
    !(a is List)
}

/// Exact copy of a string, with the relation stated.
pub fn clone_string(s: &String) -> (r: String)
    ensures
        r@ == s@,
{
    let r: String = s.clone();
    r
}

/// Exact copy of a vector of switch ids.
pub fn clone_u32_vec(v: &Vec<u32>) -> (r: Vec<u32>)
    ensures
        r@ == v@,
{
    let mut r: Vec<u32> = Vec::new();
    let mut i: usize = 0;
    while i < v.len()
        invariant
            i <= v@.len(),
            r@ =~= v@.subrange(0, i as int),
        decreases v@.len() - i,
    {
        r.push(v[i]);
        i = i + 1;
    }
    assert(r@ =~= v@);
    r
}

/// Exact copy of a byte vector.
pub fn clone_u8_vec(v: &Vec<u8>) -> (r: Vec<u8>)
    ensures
        r@ == v@,
{
    let mut r: Vec<u8> = Vec::new();
    let mut i: usize = 0;
    while i < v.len()
        invariant
            i <= v@.len(),
            r@ =~= v@.subrange(0, i as int),
        decreases v@.len() - i,
    {
        r.push(v[i]);
        i = i + 1;
    }
    assert(r@ =~= v@);
    r
}

/// Whether a vector of switch ids holds the given id.
pub fn members_contain(v: &Vec<SwitchId>, x: SwitchId) -> (r: bool)
    ensures
        r == v@.contains(x),
{
    let mut i: usize = 0;
    while i < v.len()
        invariant
            i <= v@.len(),
            forall|j: int| 0 <= j < i ==> v@[j] != x,
        decreases v@.len() - i,
    {
        if v[i] == x {
            return true;
        }
        i = i + 1;
    }
    false
}

} // verus!
