//! The replicated tables: the VRF table, the set of running TAP workers,
//! and the per-VRF MAC learning table.
//!
//! The executable tables are vectors with uniqueness invariants; their
//! mathematical images are sequences and sets, with head-recursive spec
//! functions that the transition functions of the control plane are
//! stated over.

use vstd::prelude::*;

use crate::types::{SwitchId, Vrf, VrfId, VrfV, CONFIGURATION_SWITCH_ID};

verus! {

// ---------------------------------------------------------------------------
// The VRF table as a sequence
// ---------------------------------------------------------------------------

/// The first VRF with the given id, scanning from the front.
pub open spec fn find_vrf(vs: Seq<VrfV>, id: VrfId) -> Option<VrfV>
    decreases vs.len(),
{
    if vs.len() == 0 {
        None
    } else if vs[0].id == id {
        Some(vs[0])
    } else {
        find_vrf(vs.drop_first(), id)
    }
}

/// The first VRF with the given name, scanning from the front.
pub open spec fn find_vrf_by_name(vs: Seq<VrfV>, name: Seq<char>) -> Option<VrfV>
    decreases vs.len(),
{
    if vs.len() == 0 {
        None
    } else if vs[0].name == name {
        Some(vs[0])
    } else {
        find_vrf_by_name(vs.drop_first(), name)
    }
}

pub open spec fn contains_id(vs: Seq<VrfV>, id: VrfId) -> bool {
    find_vrf(vs, id) is Some
}

pub open spec fn contains_name(vs: Seq<VrfV>, name: Seq<char>) -> bool {
    find_vrf_by_name(vs, name) is Some
}

/// Table well-formedness: ids and names are unique.
pub open spec fn table_wf(vs: Seq<VrfV>) -> bool {
    forall|i: int, j: int|
        #![trigger vs[i], vs[j]]
        0 <= i < j < vs.len() ==> vs[i].id != vs[j].id && vs[i].name != vs[j].name
}

/// The table without the VRF of the given id.
pub open spec fn vrfs_remove_id(vs: Seq<VrfV>, id: VrfId) -> Seq<VrfV>
    decreases vs.len(),
{
    if vs.len() == 0 {
        Seq::empty()
    } else if vs[0].id == id {
        vrfs_remove_id(vs.drop_first(), id)
    } else {
        seq![vs[0]] + vrfs_remove_id(vs.drop_first(), id)
    }
}

/// One more member on one VRF; no change if already present.
pub open spec fn vrf_with_member(v: VrfV, m: SwitchId) -> VrfV {
    if v.members.contains(m) {
        v
    } else {
        VrfV { id: v.id, name: v.name, members: v.members.push(m) }
    }
}

/// A member list without the given id.
pub open spec fn members_remove(ms: Seq<SwitchId>, m: SwitchId) -> Seq<SwitchId>
    decreases ms.len(),
{
    if ms.len() == 0 {
        Seq::empty()
    } else if ms[0] == m {
        members_remove(ms.drop_first(), m)
    } else {
        seq![ms[0]] + members_remove(ms.drop_first(), m)
    }
}

/// One member fewer on one VRF.
pub open spec fn vrf_without_member(v: VrfV, m: SwitchId) -> VrfV {
    VrfV { id: v.id, name: v.name, members: members_remove(v.members, m) }
}

/// A member list as a set: first occurrences kept, later repeats and the
/// reserved operator id dropped.
pub open spec fn members_norm(ms: Seq<SwitchId>) -> Seq<SwitchId>
    decreases ms.len(),
{
    if ms.len() == 0 {
        Seq::empty()
    } else {
        let prefix = members_norm(ms.drop_last());
        if ms.last() == CONFIGURATION_SWITCH_ID || ms.drop_last().contains(ms.last()) {
            prefix
        } else {
            prefix.push(ms.last())
        }
    }
}

/// Normalisation keeps exactly the non-reserved ids that were given.
pub proof fn lemma_members_norm_contains(ms: Seq<SwitchId>, q: SwitchId)
    ensures
        members_norm(ms).contains(q) == (q != CONFIGURATION_SWITCH_ID && ms.contains(q)),
    decreases ms.len(),
{
    if ms.len() == 0 {
    } else {
        lemma_members_norm_contains(ms.drop_last(), q);
        let prefix = members_norm(ms.drop_last());
        if !(ms.last() == CONFIGURATION_SWITCH_ID || ms.drop_last().contains(ms.last())) {
            lemma_push_contains(prefix, ms.last(), q);
        }
        if ms.contains(q) {
            let i = choose|i: int| 0 <= i < ms.len() && ms[i] == q;
            if i < ms.len() - 1 {
                assert(ms.drop_last()[i] == q);
            }
        }
        if ms.drop_last().contains(q) {
            let i = choose|i: int| 0 <= i < ms.drop_last().len() && ms.drop_last()[i] == q;
            assert(ms[i] == q);
        }
        if ms.last() == q {
            assert(ms.contains(q));
        }
    }
}

/// The normal form holds no repeats.
pub proof fn lemma_members_norm_unique(ms: Seq<SwitchId>)
    ensures
        ids_unique(members_norm(ms)),
    decreases ms.len(),
{
    if ms.len() == 0 {
    } else {
        lemma_members_norm_unique(ms.drop_last());
        let prefix = members_norm(ms.drop_last());
        if !(ms.last() == CONFIGURATION_SWITCH_ID || ms.drop_last().contains(ms.last())) {
            assert forall|i: int, j: int|
                0 <= i < j < prefix.push(ms.last()).len() implies prefix.push(ms.last())[i]
                != prefix.push(ms.last())[j] by {
                if j == prefix.len() {
                    assert(prefix.push(ms.last())[i] == prefix[i]);
                    assert(prefix.contains(prefix[i]));
                    lemma_members_norm_contains(ms.drop_last(), prefix[i]);
                }
            }
        }
    }
}

/// Normalise a member list: drop later repeats and the reserved id.
pub fn members_norm_exec(ms: &Vec<SwitchId>) -> (r: Vec<SwitchId>)
    ensures
        r@ == members_norm(ms@),
{
    let mut r: Vec<SwitchId> = Vec::new();
    let mut i: usize = 0;
    proof {
        assert(ms@.take(0) =~= Seq::<SwitchId>::empty());
    }
    while i < ms.len()
        invariant
            i <= ms@.len(),
            r@ =~= members_norm(ms@.take(i as int)),
        decreases ms@.len() - i,
    {
        proof {
            assert(ms@.take(i + 1).drop_last() =~= ms@.take(i as int));
            assert(ms@.take(i + 1).last() == ms@[i as int]);
        }
        let seen = crate::types::members_contain(&r, ms[i]);
        proof {
            lemma_members_norm_contains(ms@.take(i as int), ms@[i as int]);
        }
        if ms[i] != CONFIGURATION_SWITCH_ID && !seen {
            r.push(ms[i]);
        }
        i = i + 1;
    }
    proof {
        assert(ms@.take(ms@.len() as int) =~= ms@);
    }
    r
}

/// The table with the VRF of the given id gaining member `m`.
pub open spec fn vrfs_add_member(vs: Seq<VrfV>, id: VrfId, m: SwitchId) -> Seq<VrfV> {
    vs.map_values(
        |v: VrfV|
            if v.id == id {
                vrf_with_member(v, m)
            } else {
                v
            },
    )
}

/// The table with the VRF of the given id losing member `m`.
pub open spec fn vrfs_remove_member(vs: Seq<VrfV>, id: VrfId, m: SwitchId) -> Seq<VrfV> {
    vs.map_values(
        |v: VrfV|
            if v.id == id {
                vrf_without_member(v, m)
            } else {
                v
            },
    )
}

// ---------------------------------------------------------------------------
// Lemmas about the sequence forms
// ---------------------------------------------------------------------------

/// Appending a VRF with a fresh id: lookups find the new VRF under its id
/// and are otherwise unchanged.
pub proof fn lemma_find_vrf_push(vs: Seq<VrfV>, x: VrfV, id: VrfId)
    requires
        !contains_id(vs, x.id),
    ensures
        find_vrf(vs.push(x), id) == if id == x.id {
            Some(x)
        } else {
            find_vrf(vs, id)
        },
    decreases vs.len(),
{
    if vs.len() == 0 {
        assert(vs.push(x)[0] == x);
        assert(vs.push(x).drop_first() =~= Seq::<VrfV>::empty());
    } else {
        assert(vs.push(x)[0] == vs[0]);
        assert(vs.push(x).drop_first() =~= vs.drop_first().push(x));
        lemma_find_vrf_push(vs.drop_first(), x, id);
    }
}

/// After removal of an id, lookups of that id fail and others are
/// unchanged.
pub proof fn lemma_find_vrf_remove_id(vs: Seq<VrfV>, id: VrfId, q: VrfId)
    ensures
        find_vrf(vrfs_remove_id(vs, id), q) == if q == id {
            None::<VrfV>
        } else {
            find_vrf(vs, q)
        },
    decreases vs.len(),
{
    if vs.len() == 0 {
    } else {
        lemma_find_vrf_remove_id(vs.drop_first(), id, q);
        if vs[0].id == id {
        } else {
            let rest = vrfs_remove_id(vs.drop_first(), id);
            assert((seq![vs[0]] + rest)[0] == vs[0]);
            assert((seq![vs[0]] + rest).drop_first() =~= rest);
        }
    }
}

/// Removal of an absent id leaves the table as it is.
pub proof fn lemma_remove_id_noop(vs: Seq<VrfV>, id: VrfId)
    requires
        !contains_id(vs, id),
    ensures
        vrfs_remove_id(vs, id) == vs,
    decreases vs.len(),
{
    if vs.len() == 0 {
        assert(vrfs_remove_id(vs, id) =~= vs);
    } else {
        lemma_remove_id_noop(vs.drop_first(), id);
        assert(vrfs_remove_id(vs, id) =~= vs);
    }
}

/// A member update maps each position; lookups return the updated VRF.
pub proof fn lemma_find_vrf_add_member(vs: Seq<VrfV>, id: VrfId, m: SwitchId, q: VrfId)
    requires
        table_wf(vs),
    ensures
        find_vrf(vrfs_add_member(vs, id, m), q) == match find_vrf(vs, q) {
            None => None::<VrfV>,
            Some(v) => Some(
                if v.id == id {
                    vrf_with_member(v, m)
                } else {
                    v
                },
            ),
        },
    decreases vs.len(),
{
    let mapped = vrfs_add_member(vs, id, m);
    if vs.len() == 0 {
    } else {
        assert(mapped[0] == if vs[0].id == id {
            vrf_with_member(vs[0], m)
        } else {
            vs[0]
        });
        assert(mapped.drop_first() =~= vrfs_add_member(vs.drop_first(), id, m));
        assert(table_wf(vs.drop_first())) by {
            assert(forall|i: int, j: int|
                0 <= i < j < vs.drop_first().len() ==> vs.drop_first()[i] == vs[i + 1]
                    && vs.drop_first()[j] == vs[j + 1]);
        }
        lemma_find_vrf_add_member(vs.drop_first(), id, m, q);
        assert(vrf_with_member(vs[0], m).id == vs[0].id);
    }
}

/// A member removal maps each position; lookups return the updated VRF.
pub proof fn lemma_find_vrf_remove_member(vs: Seq<VrfV>, id: VrfId, m: SwitchId, q: VrfId)
    requires
        table_wf(vs),
    ensures
        find_vrf(vrfs_remove_member(vs, id, m), q) == match find_vrf(vs, q) {
            None => None::<VrfV>,
            Some(v) => Some(
                if v.id == id {
                    vrf_without_member(v, m)
                } else {
                    v
                },
            ),
        },
    decreases vs.len(),
{
    let mapped = vrfs_remove_member(vs, id, m);
    if vs.len() == 0 {
    } else {
        assert(mapped[0] == if vs[0].id == id {
            vrf_without_member(vs[0], m)
        } else {
            vs[0]
        });
        assert(mapped.drop_first() =~= vrfs_remove_member(vs.drop_first(), id, m));
        assert(table_wf(vs.drop_first())) by {
            assert(forall|i: int, j: int|
                0 <= i < j < vs.drop_first().len() ==> vs.drop_first()[i] == vs[i + 1]
                    && vs.drop_first()[j] == vs[j + 1]);
        }
        lemma_find_vrf_remove_member(vs.drop_first(), id, m, q);
        assert(vrf_without_member(vs[0], m).id == vs[0].id);
    }
}

/// Removing a member keeps every other member and drops the removed one.
pub proof fn lemma_members_remove_contains(ms: Seq<SwitchId>, m: SwitchId, q: SwitchId)
    ensures
        members_remove(ms, m).contains(q) == (q != m && ms.contains(q)),
    decreases ms.len(),
{
    if ms.len() == 0 {
    } else {
        lemma_members_remove_contains(ms.drop_first(), m, q);
        lemma_head_contains(ms, q);
        let rest = members_remove(ms.drop_first(), m);
        if ms[0] == m {
        } else {
            assert((seq![ms[0]] + rest)[0] == ms[0]);
            assert((seq![ms[0]] + rest).drop_first() =~= rest);
            lemma_head_contains(seq![ms[0]] + rest, q);
        }
    }
}

/// A non-empty list holds an element iff its head is it or its tail holds
/// it.
pub proof fn lemma_head_contains(ms: Seq<SwitchId>, q: SwitchId)
    requires
        ms.len() > 0,
    ensures
        ms.contains(q) == (ms[0] == q || ms.drop_first().contains(q)),
{
    if ms.contains(q) {
        let i = choose|i: int| 0 <= i < ms.len() && ms[i] == q;
        if i > 0 {
            assert(ms.drop_first()[i - 1] == q);
        }
    }
    if ms.drop_first().contains(q) {
        let i = choose|i: int| 0 <= i < ms.drop_first().len() && ms.drop_first()[i] == q;
        assert(ms[i + 1] == q);
    }
}

/// Removing an absent member leaves the list as it is.
pub proof fn lemma_members_remove_noop(ms: Seq<SwitchId>, m: SwitchId)
    requires
        !ms.contains(m),
    ensures
        members_remove(ms, m) == ms,
    decreases ms.len(),
{
    if ms.len() == 0 {
        assert(members_remove(ms, m) =~= ms);
    } else {
        lemma_head_contains(ms, m);
        lemma_members_remove_noop(ms.drop_first(), m);
        assert(members_remove(ms, m) =~= ms);
    }
}

// ---------------------------------------------------------------------------
// Executable lookups over the VRF vector
// ---------------------------------------------------------------------------

/// Index of the VRF with the given id, if any.
pub fn vrf_find_index(vs: &Vec<Vrf>, id: VrfId) -> (r: Option<usize>)
    ensures
        match r {
            None => find_vrf(vs.deep_view(), id) is None,
            Some(i) => i < vs@.len() && vs@[i as int].id == id && find_vrf(vs.deep_view(), id)
                == Some(vs.deep_view()[i as int]),
        },
{
    let ghost dv = vs.deep_view();
    proof {
        assert(dv.skip(0) =~= dv);
    }
    let mut i: usize = 0;
    while i < vs.len()
        invariant
            i <= vs@.len(),
            dv == vs.deep_view(),
            dv.len() == vs@.len(),
            find_vrf(dv, id) == find_vrf(dv.skip(i as int), id),
            forall|j: int| 0 <= j < i ==> #[trigger] dv[j].id != id,
        decreases vs@.len() - i,
    {
        proof {
            assert(dv.skip(i as int)[0] == dv[i as int]);
            assert(dv.skip(i as int).drop_first() =~= dv.skip(i + 1));
        }
        if vs[i].id == id {
            return Some(i);
        }
        i = i + 1;
    }
    proof {
        assert(dv.skip(vs@.len() as int) =~= Seq::<VrfV>::empty());
    }
    None
}

/// Whether the table holds a VRF of the given id.
pub fn vrf_contains_id(vs: &Vec<Vrf>, id: VrfId) -> (r: bool)
    ensures
        r == contains_id(vs.deep_view(), id),
{
    vrf_find_index(vs, id).is_some()
}

/// Index of the VRF with the given name, if any.
pub fn vrf_find_index_by_name(vs: &Vec<Vrf>, name: &String) -> (r: Option<usize>)
    ensures
        match r {
            None => find_vrf_by_name(vs.deep_view(), name@) is None,
            Some(i) => i < vs@.len() && vs@[i as int].name@ == name@ && find_vrf_by_name(
                vs.deep_view(),
                name@,
            ) == Some(vs.deep_view()[i as int]),
        },
{
    let ghost dv = vs.deep_view();
    proof {
        assert(dv.skip(0) =~= dv);
    }
    let mut i: usize = 0;
    while i < vs.len()
        invariant
            i <= vs@.len(),
            dv == vs.deep_view(),
            dv.len() == vs@.len(),
            find_vrf_by_name(dv, name@) == find_vrf_by_name(dv.skip(i as int), name@),
            forall|j: int| 0 <= j < i ==> #[trigger] dv[j].name != name@,
        decreases vs@.len() - i,
    {
        proof {
            assert(dv.skip(i as int)[0] == dv[i as int]);
            assert(dv.skip(i as int).drop_first() =~= dv.skip(i + 1));
        }
        if vs[i].name.eq(name) {
            return Some(i);
        }
        i = i + 1;
    }
    proof {
        assert(dv.skip(vs@.len() as int) =~= Seq::<VrfV>::empty());
    }
    None
}

/// Whether the table holds a VRF of the given name.
pub fn vrf_contains_name(vs: &Vec<Vrf>, name: &String) -> (r: bool)
    ensures
        r == contains_name(vs.deep_view(), name@),
{
    vrf_find_index_by_name(vs, name).is_some()
}

/// A failed id lookup means no position holds the id; a successful one
/// returns a held VRF with that id.
pub proof fn lemma_find_vrf_characterize(vs: Seq<VrfV>, id: VrfId)
    ensures
        (find_vrf(vs, id) is None) == (forall|k: int|
            0 <= k < vs.len() ==> (#[trigger] vs[k]).id != id),
        find_vrf(vs, id) matches Some(v) ==> vs.contains(v) && v.id == id,
    decreases vs.len(),
{
    if vs.len() == 0 {
    } else {
        lemma_find_vrf_characterize(vs.drop_first(), id);
        let rest = vs.drop_first();
        if vs[0].id == id {
            assert(vs.contains(vs[0]));
            assert(vs[0].id == id);
        } else {
            match find_vrf(rest, id) {
                Some(v) => {
                    assert(rest.contains(v) && v.id == id);
                    let k = choose|k: int| 0 <= k < rest.len() && rest[k] == v;
                    assert(vs[k + 1] == v);
                    assert(vs.contains(v));
                    assert(vs[k + 1].id == id);
                },
                None => {
                    assert forall|k: int| 0 <= k < vs.len() implies (#[trigger] vs[k]).id
                        != id by {
                        if k > 0 {
                            assert(rest[k - 1] == vs[k]);
                        }
                    }
                },
            }
        }
    }
}

/// A failed name lookup means no position holds the name.
pub proof fn lemma_find_vrf_by_name_characterize(vs: Seq<VrfV>, name: Seq<char>)
    ensures
        (find_vrf_by_name(vs, name) is None) == (forall|k: int|
            0 <= k < vs.len() ==> (#[trigger] vs[k]).name != name),
    decreases vs.len(),
{
    if vs.len() == 0 {
    } else {
        lemma_find_vrf_by_name_characterize(vs.drop_first(), name);
        let rest = vs.drop_first();
        if vs[0].name == name {
            assert(vs[0].name == name);
        } else {
            if (find_vrf_by_name(rest, name)) is None {
                assert forall|k: int| 0 <= k < vs.len() implies (#[trigger] vs[k]).name
                    != name by {
                    if k > 0 {
                        assert(rest[k - 1] == vs[k]);
                    }
                }
            } else {
                let k = choose|k: int| 0 <= k < rest.len() && (#[trigger] rest[k]).name == name;
                assert(vs[k + 1].name == name);
            }
        }
    }
}

/// What removal holds, the table held.
pub proof fn lemma_vrfs_remove_contains(vs: Seq<VrfV>, id: VrfId, v: VrfV)
    requires
        vrfs_remove_id(vs, id).contains(v),
    ensures
        vs.contains(v),
    decreases vs.len(),
{
    if vs.len() == 0 {
    } else {
        let rest = vrfs_remove_id(vs.drop_first(), id);
        if vs[0].id == id {
            lemma_vrfs_remove_contains(vs.drop_first(), id, v);
            let k = choose|k: int|
                0 <= k < vs.drop_first().len() && vs.drop_first()[k] == v;
            assert(vs[k + 1] == v);
        } else {
            let whole = seq![vs[0]] + rest;
            let i = choose|i: int| 0 <= i < whole.len() && whole[i] == v;
            if i == 0 {
                assert(vs.contains(vs[0]));
            } else {
                assert(rest[i - 1] == v);
                assert(rest.contains(v));
                lemma_vrfs_remove_contains(vs.drop_first(), id, v);
                let k = choose|k: int|
                    0 <= k < vs.drop_first().len() && vs.drop_first()[k] == v;
                assert(vs[k + 1] == v);
            }
        }
    }
}

/// Removal of an id keeps the table well formed.
pub proof fn lemma_vrfs_remove_wf(vs: Seq<VrfV>, id: VrfId)
    requires
        table_wf(vs),
    ensures
        table_wf(vrfs_remove_id(vs, id)),
    decreases vs.len(),
{
    if vs.len() == 0 {
    } else {
        assert(table_wf(vs.drop_first())) by {
            assert(forall|i: int, j: int|
                0 <= i < j < vs.drop_first().len() ==> vs.drop_first()[i] == vs[i + 1]
                    && vs.drop_first()[j] == vs[j + 1]);
        }
        lemma_vrfs_remove_wf(vs.drop_first(), id);
        if vs[0].id == id {
        } else {
            let rest = vrfs_remove_id(vs.drop_first(), id);
            let whole = seq![vs[0]] + rest;
            assert forall|i: int, j: int|
                0 <= i < j < whole.len() implies whole[i].id != whole[j].id && whole[i].name
                != whole[j].name by {
                if i == 0 {
                    assert(whole[j] == rest[j - 1]);
                    assert(rest.contains(rest[j - 1]));
                    lemma_vrfs_remove_contains(vs.drop_first(), id, whole[j]);
                    let k = choose|k: int|
                        0 <= k < vs.drop_first().len() && vs.drop_first()[k] == whole[j];
                    assert(vs[k + 1] == whole[j]);
                    assert(vs[0].id != vs[k + 1].id && vs[0].name != vs[k + 1].name);
                } else {
                    assert(whole.len() == 1 + rest.len());
                    assert(0 <= i - 1 < j - 1 < rest.len());
                    assert(whole[i] == rest[i - 1] && whole[j] == rest[j - 1]);
                    assert(rest[i - 1].id != rest[j - 1].id && rest[i - 1].name != rest[j
                        - 1].name);
                }
            }
        }
    }
}

/// Removal of an id distributes over appending one VRF at the back.
pub proof fn lemma_vrfs_remove_push(vs: Seq<VrfV>, id: VrfId, e: VrfV)
    ensures
        vrfs_remove_id(vs.push(e), id) == if e.id == id {
            vrfs_remove_id(vs, id)
        } else {
            vrfs_remove_id(vs, id).push(e)
        },
    decreases vs.len(),
{
    if vs.len() == 0 {
        assert(vs.push(e)[0] == e);
        assert(vs.push(e).drop_first() =~= Seq::<VrfV>::empty());
        assert(vrfs_remove_id(Seq::<VrfV>::empty(), id) == Seq::<VrfV>::empty());
        if e.id != id {
            assert(vrfs_remove_id(vs.push(e), id) =~= vrfs_remove_id(vs, id).push(e));
        } else {
            assert(vrfs_remove_id(vs.push(e), id) =~= vrfs_remove_id(vs, id));
        }
    } else {
        assert(vs.push(e)[0] == vs[0]);
        assert(vs.push(e).drop_first() =~= vs.drop_first().push(e));
        lemma_vrfs_remove_push(vs.drop_first(), id, e);
        assert(vrfs_remove_id(vs.drop_first().push(e), id) == if e.id == id {
            vrfs_remove_id(vs.drop_first(), id)
        } else {
            vrfs_remove_id(vs.drop_first(), id).push(e)
        });
        if e.id != id {
            assert(vrfs_remove_id(vs.push(e), id) =~= vrfs_remove_id(vs, id).push(e));
        } else {
            assert(vrfs_remove_id(vs.push(e), id) =~= vrfs_remove_id(vs, id));
        }
    }
}

/// Drop the VRF of the given id from the vector, if present.
pub fn remove_vrf_entry(vs: &mut Vec<Vrf>, id: VrfId)
    ensures
        final(vs).deep_view() == vrfs_remove_id(old(vs).deep_view(), id),
{
    let ghost dv = old(vs).deep_view();
    let mut kept: Vec<Vrf> = Vec::new();
    let mut i: usize = 0;
    proof {
        assert(kept.deep_view() =~= Seq::<VrfV>::empty());
        assert(dv.take(0) =~= Seq::<VrfV>::empty());
    }
    while i < vs.len()
        invariant
            i <= vs@.len(),
            vs@ == old(vs)@,
            dv == vs.deep_view(),
            dv.len() == vs@.len(),
            kept.deep_view() =~= vrfs_remove_id(dv.take(i as int), id),
        decreases vs@.len() - i,
    {
        proof {
            lemma_vrfs_remove_push(dv.take(i as int), id, dv[i as int]);
            assert(dv.take(i + 1) =~= dv.take(i as int).push(dv[i as int]));
        }
        if vs[i].id != id {
            let ghost before = kept.deep_view();
            kept.push(vs[i].duplicate());
            proof {
                assert(kept.deep_view() =~= before.push(dv[i as int]));
            }
        }
        i = i + 1;
    }
    proof {
        assert(dv.take(dv.len() as int) =~= dv);
    }
    *vs = kept;
}

/// A member list without the given id, as a fresh vector.
pub fn members_remove_exec(ms: &Vec<SwitchId>, m: SwitchId) -> (r: Vec<SwitchId>)
    ensures
        r@ == members_remove(ms@, m),
{
    let mut kept: Vec<SwitchId> = Vec::new();
    let mut i: usize = 0;
    proof {
        assert(ms@.take(0) =~= Seq::<SwitchId>::empty());
    }
    while i < ms.len()
        invariant
            i <= ms@.len(),
            kept@ =~= members_remove(ms@.take(i as int), m),
        decreases ms@.len() - i,
    {
        proof {
            lemma_members_remove_push(ms@.take(i as int), m, ms@[i as int]);
            assert(ms@.take(i + 1) =~= ms@.take(i as int).push(ms@[i as int]));
        }
        if ms[i] != m {
            kept.push(ms[i]);
        }
        i = i + 1;
    }
    proof {
        assert(ms@.take(ms@.len() as int) =~= ms@);
        assert(kept@ =~= members_remove(ms@, m));
    }
    kept
}

// ---------------------------------------------------------------------------
// The set of running TAP workers, as a vector of VRF ids
// ---------------------------------------------------------------------------

/// The set a vector of ids stands for.
pub open spec fn taps_set(s: Seq<VrfId>) -> Set<VrfId> {
    Set::new(|x: VrfId| s.contains(x))
}

pub open spec fn ids_unique(s: Seq<VrfId>) -> bool {
    forall|i: int, j: int| 0 <= i < j < s.len() ==> s[i] != s[j]
}

/// A pushed element is held; the rest is untouched.
pub proof fn lemma_push_contains(s: Seq<SwitchId>, e: SwitchId, q: SwitchId)
    ensures
        s.push(e).contains(q) == (s.contains(q) || q == e),
{
    if s.push(e).contains(q) {
        let i = choose|i: int| 0 <= i < s.push(e).len() && s.push(e)[i] == q;
        if i < s.len() {
            assert(s[i] == q);
        }
    }
    if s.contains(q) {
        let i = choose|i: int| 0 <= i < s.len() && s[i] == q;
        assert(s.push(e)[i] == q);
    }
    assert(s.push(e)[s.len() as int] == e);
}

/// Record that a TAP worker runs for this VRF.
pub fn taps_insert(taps: &mut Vec<VrfId>, id: VrfId)
    requires
        ids_unique(old(taps)@),
    ensures
        ids_unique(final(taps)@),
        taps_set(final(taps)@) == taps_set(old(taps)@).insert(id),
{
    let present = crate::types::members_contain(taps, id);
    if !present {
        taps.push(id);
    }
    proof {
        assert forall|q: VrfId|
            taps_set(taps@).contains(q) == taps_set(old(taps)@).insert(id).contains(q) by {
            if !present {
                lemma_push_contains(old(taps)@, id, q);
            }
        }
        assert(taps_set(taps@) =~= taps_set(old(taps)@).insert(id));
        if !present {
            assert forall|i: int, j: int|
                0 <= i < j < taps@.len() implies taps@[i] != taps@[j] by {
                if j == taps@.len() - 1 {
                    assert(old(taps)@[i] == taps@[i]);
                    assert(!old(taps)@.contains(id));
                }
            }
        }
    }
}

/// Forget the TAP worker of this VRF, if any.
pub fn taps_remove(taps: &mut Vec<VrfId>, id: VrfId)
    requires
        ids_unique(old(taps)@),
    ensures
        ids_unique(final(taps)@),
        taps_set(final(taps)@) == taps_set(old(taps)@).remove(id),
{
    let ghost orig = taps@;
    let mut kept: Vec<VrfId> = Vec::new();
    let mut i: usize = 0;
    while i < taps.len()
        invariant
            i <= taps@.len(),
            taps@ == orig,
            kept@ =~= members_remove(orig.take(i as int), id),
        decreases taps@.len() - i,
    {
        proof {
            lemma_members_remove_push(orig.take(i as int), id, orig[i as int]);
            assert(orig.take(i + 1) =~= orig.take(i as int).push(orig[i as int]));
        }
        if taps[i] != id {
            kept.push(taps[i]);
        }
        i = i + 1;
    }
    proof {
        assert(orig.take(orig.len() as int) =~= orig);
    }
    *taps = kept;
    proof {
        assert forall|q: VrfId|
            taps_set(taps@).contains(q) == taps_set(orig).remove(id).contains(q) by {
            lemma_members_remove_contains(orig, id, q);
        }
        assert(taps_set(taps@) =~= taps_set(orig).remove(id));
        assert forall|i2: int, j2: int|
            0 <= i2 < j2 < taps@.len() implies taps@[i2] != taps@[j2] by {
            lemma_members_remove_unique(orig, id);
        }
    }
}

/// Removal distributes over appending one element at the back.
pub proof fn lemma_members_remove_push(ms: Seq<SwitchId>, m: SwitchId, e: SwitchId)
    ensures
        members_remove(ms.push(e), m) == if e == m {
            members_remove(ms, m)
        } else {
            members_remove(ms, m).push(e)
        },
    decreases ms.len(),
{
    if ms.len() == 0 {
        assert(ms.push(e)[0] == e);
        assert(ms.push(e).drop_first() =~= Seq::<SwitchId>::empty());
        assert(members_remove(Seq::<SwitchId>::empty(), m) == Seq::<SwitchId>::empty());
        if e != m {
            assert(members_remove(ms.push(e), m) =~= members_remove(ms, m).push(e));
        } else {
            assert(members_remove(ms.push(e), m) =~= members_remove(ms, m));
        }
    } else {
        assert(ms.push(e)[0] == ms[0]);
        assert(ms.push(e).drop_first() =~= ms.drop_first().push(e));
        lemma_members_remove_push(ms.drop_first(), m, e);
        assert(members_remove(ms.drop_first().push(e), m) == if e == m {
            members_remove(ms.drop_first(), m)
        } else {
            members_remove(ms.drop_first(), m).push(e)
        });
        if ms[0] == m {
            assert(members_remove(ms.push(e), m) == members_remove(ms.drop_first().push(e), m));
            if e != m {
                assert(members_remove(ms.push(e), m) =~= members_remove(ms, m).push(e));
            } else {
                assert(members_remove(ms.push(e), m) =~= members_remove(ms, m));
            }
        } else {
            assert(members_remove(ms.push(e), m) == seq![ms[0]] + members_remove(
                ms.drop_first().push(e),
                m,
            ));
            if e != m {
                assert(members_remove(ms.push(e), m) =~= members_remove(ms, m).push(e));
            } else {
                assert(members_remove(ms.push(e), m) =~= members_remove(ms, m));
            }
        }
    }
}

/// Removal keeps distinctness.
pub proof fn lemma_members_remove_unique(ms: Seq<SwitchId>, m: SwitchId)
    requires
        ids_unique(ms),
    ensures
        ids_unique(members_remove(ms, m)),
    decreases ms.len(),
{
    if ms.len() == 0 {
    } else {
        assert(ids_unique(ms.drop_first())) by {
            assert(forall|i: int, j: int|
                0 <= i < j < ms.drop_first().len() ==> ms.drop_first()[i] == ms[i + 1]
                    && ms.drop_first()[j] == ms[j + 1]);
        }
        lemma_members_remove_unique(ms.drop_first(), m);
        if ms[0] == m {
        } else {
            let rest = members_remove(ms.drop_first(), m);
            let whole = seq![ms[0]] + rest;
            assert forall|i: int, j: int|
                0 <= i < j < whole.len() implies whole[i] != whole[j] by {
                if i == 0 {
                    assert(whole[j] == rest[j - 1]);
                    lemma_members_remove_contains(ms.drop_first(), m, whole[j]);
                    assert(rest.contains(rest[j - 1]));
                    lemma_head_contains(ms, whole[j]);
                    if ms[0] == whole[j] {
                        let k = choose|k: int|
                            0 <= k < ms.drop_first().len() && ms.drop_first()[k] == whole[j];
                        assert(ms[k + 1] == ms[0]);
                    }
                } else {
                    assert(whole[i] == rest[i - 1] && whole[j] == rest[j - 1]);
                }
            }
        }
    }
}

// ---------------------------------------------------------------------------
// The MAC learning table
// ---------------------------------------------------------------------------

/// One learned binding: on this VRF, frames for this MAC go to this switch.
pub struct LearnEntry {
    pub vrf_id: VrfId,
    pub mac: [u8; 6],
    pub origin: SwitchId,
}

/// Mathematical image of a [`LearnEntry`].
pub struct LearnEntryV {
    pub vrf_id: VrfId,
    pub mac: Seq<u8>,
    pub origin: SwitchId,
}

impl View for LearnEntry {
    type V = LearnEntryV;

    open spec fn view(&self) -> LearnEntryV {
        LearnEntryV { vrf_id: self.vrf_id, mac: self.mac@, origin: self.origin }
    }
}

impl DeepView for LearnEntry {
    type V = LearnEntryV;

    open spec fn deep_view(&self) -> LearnEntryV {
        self.view()
    }
}

/// The switch a MAC was last learned from on a VRF, if any.
pub open spec fn lookup_mac(s: Seq<LearnEntryV>, vrf: VrfId, mac: Seq<u8>) -> Option<
    SwitchId,
>
    decreases s.len(),
{
    if s.len() == 0 {
        None
    } else if s[0].vrf_id == vrf && s[0].mac == mac {
        Some(s[0].origin)
    } else {
        lookup_mac(s.drop_first(), vrf, mac)
    }
}

/// The table after learning a binding: overwrites an existing entry for
/// the same VRF and MAC, else appends.
pub open spec fn spec_learn(
    s: Seq<LearnEntryV>,
    vrf: VrfId,
    mac: Seq<u8>,
    origin: SwitchId,
) -> Seq<LearnEntryV>
    decreases s.len(),
{
    if s.len() == 0 {
        seq![LearnEntryV { vrf_id: vrf, mac, origin }]
    } else if s[0].vrf_id == vrf && s[0].mac == mac {
        seq![LearnEntryV { vrf_id: vrf, mac, origin }] + s.drop_first()
    } else {
        seq![s[0]] + spec_learn(s.drop_first(), vrf, mac, origin)
    }
}

/// The table without the entries of one VRF.
pub open spec fn learned_remove_vrf(s: Seq<LearnEntryV>, vrf: VrfId) -> Seq<LearnEntryV>
    decreases s.len(),
{
    if s.len() == 0 {
        Seq::empty()
    } else if s[0].vrf_id == vrf {
        learned_remove_vrf(s.drop_first(), vrf)
    } else {
        seq![s[0]] + learned_remove_vrf(s.drop_first(), vrf)
    }
}

/// Learning one binding changes exactly that binding.
pub proof fn lemma_lookup_learn(
    s: Seq<LearnEntryV>,
    vrf: VrfId,
    mac: Seq<u8>,
    origin: SwitchId,
    qv: VrfId,
    qm: Seq<u8>,
)
    ensures
        lookup_mac(spec_learn(s, vrf, mac, origin), qv, qm) == if qv == vrf && qm == mac {
            Some(origin)
        } else {
            lookup_mac(s, qv, qm)
        },
    decreases s.len(),
{
    let e = LearnEntryV { vrf_id: vrf, mac, origin };
    if s.len() == 0 {
        assert(spec_learn(s, vrf, mac, origin)[0] == e);
        assert(spec_learn(s, vrf, mac, origin).drop_first() =~= Seq::<LearnEntryV>::empty());
        assert(lookup_mac(Seq::<LearnEntryV>::empty(), qv, qm) is None);
    } else if s[0].vrf_id == vrf && s[0].mac == mac {
        let w = seq![e] + s.drop_first();
        assert(w[0] == e);
        assert(w.drop_first() =~= s.drop_first());
    } else {
        let w = seq![s[0]] + spec_learn(s.drop_first(), vrf, mac, origin);
        assert(w[0] == s[0]);
        assert(w.drop_first() =~= spec_learn(s.drop_first(), vrf, mac, origin));
        lemma_lookup_learn(s.drop_first(), vrf, mac, origin, qv, qm);
    }
}

/// Byte-wise equality of two MAC addresses.
pub fn mac_eq(a: &[u8; 6], b: &[u8; 6]) -> (r: bool)
    ensures
        r == (a@ == b@),
{
    let r = a[0] == b[0] && a[1] == b[1] && a[2] == b[2] && a[3] == b[3] && a[4] == b[4]
        && a[5] == b[5];
    proof {
        if r {
            assert(a@ =~= b@);
        }
    }
    r
}

/// Look a destination MAC up in the learning table.
pub fn lookup_learned(table: &Vec<LearnEntry>, vrf: VrfId, mac: &[u8; 6]) -> (r: Option<
    SwitchId,
>)
    ensures
        r == lookup_mac(table.deep_view(), vrf, mac@),
{
    let ghost dv = table.deep_view();
    proof {
        assert(dv.skip(0) =~= dv);
    }
    let mut i: usize = 0;
    while i < table.len()
        invariant
            i <= table@.len(),
            dv == table.deep_view(),
            dv.len() == table@.len(),
            lookup_mac(dv, vrf, mac@) == lookup_mac(dv.skip(i as int), vrf, mac@),
        decreases table@.len() - i,
    {
        proof {
            assert(dv.skip(i as int)[0] == dv[i as int]);
            assert(dv.skip(i as int).drop_first() =~= dv.skip(i + 1));
        }
        if table[i].vrf_id == vrf && mac_eq(&table[i].mac, mac) {
            return Some(table[i].origin);
        }
        i = i + 1;
    }
    proof {
        assert(dv.skip(table@.len() as int) =~= Seq::<LearnEntryV>::empty());
    }
    None
}

/// Learn a binding: overwrite the entry for this VRF and MAC, or append
/// one.
pub fn learn(table: &mut Vec<LearnEntry>, vrf: VrfId, mac: [u8; 6], origin: SwitchId)
    ensures
        final(table).deep_view() == spec_learn(old(table).deep_view(), vrf, mac@, origin),
{
    let ghost dv = old(table).deep_view();
    proof {
        assert(dv.skip(0) =~= dv);
    }
    let mut i: usize = 0;
    while i < table.len()
        invariant
            i <= table@.len(),
            table@ == old(table)@,
            dv == table.deep_view(),
            dv.len() == table@.len(),
            spec_learn(dv, vrf, mac@, origin) =~= dv.take(i as int) + spec_learn(
                dv.skip(i as int),
                vrf,
                mac@,
                origin,
            ),
        decreases table@.len() - i,
    {
        proof {
            assert(dv.skip(i as int)[0] == dv[i as int]);
            assert(dv.skip(i as int).drop_first() =~= dv.skip(i + 1));
        }
        if table[i].vrf_id == vrf && mac_eq(&table[i].mac, &mac) {
            let slot = &mut table[i];
            slot.origin = origin;
            proof {
                let e = LearnEntryV { vrf_id: vrf, mac: mac@, origin };
                assert(table@[i as int]@ == e);
                assert(table.deep_view() =~= dv.take(i as int) + (seq![e] + dv.skip(
                    i + 1,
                )));
                assert(spec_learn(dv.skip(i as int), vrf, mac@, origin) =~= seq![e]
                    + dv.skip(i + 1));
                assert(table.deep_view() =~= spec_learn(dv, vrf, mac@, origin));
            }
            return ;
        }
        proof {
            assert(dv.take(i + 1) =~= dv.take(i as int).push(dv[i as int]));
            assert(dv.take(i as int) + (seq![dv[i as int]] + spec_learn(
                dv.skip(i + 1),
                vrf,
                mac@,
                origin,
            )) =~= dv.take(i + 1) + spec_learn(dv.skip(i + 1), vrf, mac@, origin));
        }
        i = i + 1;
    }
    table.push(LearnEntry { vrf_id: vrf, mac, origin });
    proof {
        let e = LearnEntryV { vrf_id: vrf, mac: mac@, origin };
        assert(dv.skip(dv.len() as int) =~= Seq::<LearnEntryV>::empty());
        assert(dv.take(dv.len() as int) =~= dv);
        assert(table.deep_view() =~= dv + seq![e]);
        assert(spec_learn(Seq::<LearnEntryV>::empty(), vrf, mac@, origin) == seq![e]);
    }
}

/// Drop every learned binding of one VRF.
pub fn forget_vrf(table: &mut Vec<LearnEntry>, vrf: VrfId)
    ensures
        final(table).deep_view() == learned_remove_vrf(old(table).deep_view(), vrf),
{
    let ghost dv = old(table).deep_view();
    let mut kept: Vec<LearnEntry> = Vec::new();
    let mut i: usize = 0;
    proof {
        assert(kept.deep_view() =~= Seq::<LearnEntryV>::empty());
        assert(dv.take(0) =~= Seq::<LearnEntryV>::empty());
    }
    while i < table.len()
        invariant
            i <= table@.len(),
            table@ == old(table)@,
            dv == table.deep_view(),
            dv.len() == table@.len(),
            kept.deep_view() =~= learned_remove_vrf(dv.take(i as int), vrf),
        decreases table@.len() - i,
    {
        proof {
            lemma_learned_remove_push(dv.take(i as int), vrf, dv[i as int]);
            assert(dv.take(i + 1) =~= dv.take(i as int).push(dv[i as int]));
        }
        if table[i].vrf_id != vrf {
            let ghost before = kept.deep_view();
            kept.push(LearnEntry {
                vrf_id: table[i].vrf_id,
                mac: table[i].mac,
                origin: table[i].origin,
            });
            proof {
                assert(kept.deep_view() =~= before.push(dv[i as int]));
            }
        }
        i = i + 1;
    }
    proof {
        assert(dv.take(dv.len() as int) =~= dv);
    }
    *table = kept;
}

/// Dropping a VRF distributes over appending one entry at the back.
pub proof fn lemma_learned_remove_push(s: Seq<LearnEntryV>, vrf: VrfId, e: LearnEntryV)
    ensures
        learned_remove_vrf(s.push(e), vrf) == if e.vrf_id == vrf {
            learned_remove_vrf(s, vrf)
        } else {
            learned_remove_vrf(s, vrf).push(e)
        },
    decreases s.len(),
{
    if s.len() == 0 {
        assert(s.push(e)[0] == e);
        assert(s.push(e).drop_first() =~= Seq::<LearnEntryV>::empty());
        assert(learned_remove_vrf(Seq::<LearnEntryV>::empty(), vrf)
            == Seq::<LearnEntryV>::empty());
        if e.vrf_id != vrf {
            assert(learned_remove_vrf(s.push(e), vrf) =~= learned_remove_vrf(s, vrf).push(
                e,
            ));
        } else {
            assert(learned_remove_vrf(s.push(e), vrf) =~= learned_remove_vrf(s, vrf));
        }
    } else {
        assert(s.push(e)[0] == s[0]);
        assert(s.push(e).drop_first() =~= s.drop_first().push(e));
        lemma_learned_remove_push(s.drop_first(), vrf, e);
        assert(learned_remove_vrf(s.drop_first().push(e), vrf) == if e.vrf_id == vrf {
            learned_remove_vrf(s.drop_first(), vrf)
        } else {
            learned_remove_vrf(s.drop_first(), vrf).push(e)
        });
        if e.vrf_id != vrf {
            assert(learned_remove_vrf(s.push(e), vrf) =~= learned_remove_vrf(s, vrf).push(
                e,
            ));
        } else {
            assert(learned_remove_vrf(s.push(e), vrf) =~= learned_remove_vrf(s, vrf));
        }
    }
}

} // verus!
