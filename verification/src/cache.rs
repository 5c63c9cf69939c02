//! The persisted cache: the VRF table and the learned MAC bindings,
//! written out periodically and read back at boot.
//!
//! The encoding is the wire codec's family: 64-bit counts, 32-bit
//! integers, raw six-byte MACs.  Reading tolerates anything: bytes that
//! do not decode, or decode to a table that breaks an invariant, yield
//! the empty cache — never an error.

use vstd::prelude::*;
use vstd::bytes::*;

use crate::codec::{
    dec_u64, dec_u32, dec_vrf_list, enc_u32, enc_u64, enc_vrf_list, lemma_dec_enc_u32,
    lemma_dec_enc_u64, lemma_dec_enc_vrf_list, read_u32, read_u64, read_vrf, wf_vrf_list,
};
use crate::control::no_reserved_member;
use crate::tables::{table_wf, LearnEntry, LearnEntryV};
use crate::types::{clone_u32_vec, SwitchId, Vrf, VrfId, VrfV, CONFIGURATION_SWITCH_ID};

verus! {

/// What survives a restart: the learned bindings and the VRF table.
pub struct Cache {
    pub switch_table: Vec<LearnEntry>,
    pub vrf_table: Vec<Vrf>,
}

/// Mathematical image of a [`Cache`].
pub struct CacheV {
    pub switch_table: Seq<LearnEntryV>,
    pub vrf_table: Seq<VrfV>,
}

impl View for Cache {
    type V = CacheV;

    open spec fn view(&self) -> CacheV {
        CacheV {
            switch_table: self.switch_table.deep_view(),
            vrf_table: self.vrf_table.deep_view(),
        }
    }
}

impl Cache {
    /// The cache of a node that has nothing yet.
    pub fn empty() -> (r: Cache)
        ensures
            r@.switch_table == Seq::<LearnEntryV>::empty(),
            r@.vrf_table == Seq::<VrfV>::empty(),
    {
        let r = Cache { switch_table: Vec::new(), vrf_table: Vec::new() };
        proof {
            assert(r.switch_table.deep_view() =~= Seq::<LearnEntryV>::empty());
            assert(r.vrf_table.deep_view() =~= Seq::<VrfV>::empty());
        }
        r
    }
}

// ---------------------------------------------------------------------------
// Encoding
// ---------------------------------------------------------------------------

/// One learned binding on disk: VRF id, the six MAC bytes, the origin.
pub open spec fn enc_learn_entry(e: LearnEntryV) -> Seq<u8> {
    enc_u32(e.vrf_id) + e.mac + enc_u32(e.origin)
}

/// The bindings back to back.
pub open spec fn enc_learn_elems(s: Seq<LearnEntryV>) -> Seq<u8>
    decreases s.len(),
{
    if s.len() == 0 {
        Seq::empty()
    } else {
        enc_learn_entry(s[0]) + enc_learn_elems(s.drop_first())
    }
}

/// The learned bindings: 64-bit count, then the entries.
pub open spec fn enc_learn_list(s: Seq<LearnEntryV>) -> Seq<u8>
    recommends
        s.len() <= u64::MAX,
{
    enc_u64(s.len() as u64) + enc_learn_elems(s)
}

/// The whole cache: the bindings, then the VRF table.
pub open spec fn enc_cache(c: CacheV) -> Seq<u8> {
    enc_learn_list(c.switch_table) + enc_vrf_list(c.vrf_table)
}

/// A binding is well formed when its MAC holds six bytes.
pub open spec fn wf_learn_entry(e: LearnEntryV) -> bool {
    e.mac.len() == 6
}

pub open spec fn wf_learn_list(s: Seq<LearnEntryV>) -> bool {
    &&& s.len() <= u64::MAX
    &&& forall|i: int| 0 <= i < s.len() ==> wf_learn_entry(#[trigger] s[i])
}

pub open spec fn wf_cache(c: CacheV) -> bool {
    &&& wf_learn_list(c.switch_table)
    &&& wf_vrf_list(c.vrf_table)
}

// ---------------------------------------------------------------------------
// Decoding
// ---------------------------------------------------------------------------

/// Decode one binding.
pub open spec fn dec_learn_entry(b: Seq<u8>) -> Option<(LearnEntryV, int)> {
    match dec_u32(b) {
        None => None,
        Some((vrf_id, c1)) => if b.len() >= c1 + 6 {
            let mac = b.subrange(c1, c1 + 6);
            match dec_u32(b.skip(c1 + 6)) {
                None => None,
                Some((origin, c2)) => Some(
                    (LearnEntryV { vrf_id, mac, origin }, c1 + 6 + c2),
                ),
            }
        } else {
            None
        },
    }
}

/// Decode exactly `n` bindings.
pub open spec fn dec_learn_elems(b: Seq<u8>, n: nat) -> Option<(Seq<LearnEntryV>, int)>
    decreases n,
{
    if n == 0 {
        Some((Seq::empty(), 0int))
    } else {
        match dec_learn_entry(b) {
            None => None,
            Some((e, c)) => match dec_learn_elems(b.skip(c), (n - 1) as nat) {
                None => None,
                Some((s, c2)) => Some((seq![e] + s, c + c2)),
            },
        }
    }
}

/// Decode the length-prefixed binding list.
pub open spec fn dec_learn_list(b: Seq<u8>) -> Option<(Seq<LearnEntryV>, int)> {
    match dec_u64(b) {
        None => None,
        Some((n, c)) => match dec_learn_elems(b.skip(c), n as nat) {
            None => None,
            Some((s, c2)) => Some((s, c + c2)),
        },
    }
}

/// Decode a cache image.
pub open spec fn dec_cache(b: Seq<u8>) -> Option<CacheV> {
    match dec_learn_list(b) {
        None => None,
        Some((st, c1)) => match dec_vrf_list(b.skip(c1)) {
            None => None,
            Some((vt, _c2)) => Some(CacheV { switch_table: st, vrf_table: vt }),
        },
    }
}

// ---------------------------------------------------------------------------
// Round trip
// ---------------------------------------------------------------------------

proof fn lemma_dec_enc_learn_entry(e: LearnEntryV, rest: Seq<u8>)
    requires
        wf_learn_entry(e),
    ensures
        dec_learn_entry(enc_learn_entry(e) + rest) == Some((
            e,
            enc_learn_entry(e).len() as int,
        )),
{
    lemma_auto_spec_u32_to_from_le_bytes();
    let whole = enc_learn_entry(e) + rest;
    let after_id = e.mac + (enc_u32(e.origin) + rest);
    assert(whole =~= enc_u32(e.vrf_id) + after_id);
    lemma_dec_enc_u32(e.vrf_id, after_id);
    assert(whole.subrange(4, 10) =~= e.mac);
    assert(whole.skip(10) =~= enc_u32(e.origin) + rest);
    lemma_dec_enc_u32(e.origin, rest);
}

proof fn lemma_dec_enc_learn_elems(s: Seq<LearnEntryV>, rest: Seq<u8>)
    requires
        forall|i: int| 0 <= i < s.len() ==> wf_learn_entry(#[trigger] s[i]),
    ensures
        dec_learn_elems(enc_learn_elems(s) + rest, s.len()) == Some((
            s,
            enc_learn_elems(s).len() as int,
        )),
    decreases s.len(),
{
    lemma_auto_spec_u32_to_from_le_bytes();
    if s.len() == 0 {
        assert(enc_learn_elems(s) + rest =~= rest);
        assert(Seq::<LearnEntryV>::empty() =~= s);
    } else {
        let whole = enc_learn_elems(s) + rest;
        let tail_enc = enc_learn_elems(s.drop_first());
        assert(whole =~= enc_learn_entry(s[0]) + (tail_enc + rest));
        lemma_dec_enc_learn_entry(s[0], tail_enc + rest);
        let c = enc_learn_entry(s[0]).len() as int;
        assert(whole.skip(c) =~= tail_enc + rest);
        lemma_dec_enc_learn_elems(s.drop_first(), rest);
        assert(seq![s[0]] + s.drop_first() =~= s);
    }
}

proof fn lemma_dec_enc_learn_list(s: Seq<LearnEntryV>, rest: Seq<u8>)
    requires
        wf_learn_list(s),
    ensures
        dec_learn_list(enc_learn_list(s) + rest) == Some((
            s,
            enc_learn_list(s).len() as int,
        )),
{
    lemma_auto_spec_u64_to_from_le_bytes();
    let whole = enc_learn_list(s) + rest;
    assert(whole =~= enc_u64(s.len() as u64) + (enc_learn_elems(s) + rest));
    lemma_dec_enc_u64(s.len() as u64, enc_learn_elems(s) + rest);
    assert(whole.skip(8) =~= enc_learn_elems(s) + rest);
    lemma_dec_enc_learn_elems(s, rest);
}

/// A well-formed cache decodes from its own encoding.
pub proof fn lemma_cache_round_trip(c: CacheV)
    requires
        wf_cache(c),
    ensures
        dec_cache(enc_cache(c)) == Some(c),
{
    let whole = enc_cache(c);
    assert(whole =~= enc_learn_list(c.switch_table) + enc_vrf_list(c.vrf_table));
    lemma_dec_enc_learn_list(c.switch_table, enc_vrf_list(c.vrf_table));
    let c1 = enc_learn_list(c.switch_table).len() as int;
    assert(whole.skip(c1) =~= enc_vrf_list(c.vrf_table) + Seq::<u8>::empty());
    lemma_dec_enc_vrf_list(c.vrf_table, Seq::empty());
}

// ---------------------------------------------------------------------------
// Executable encoding and decoding
// ---------------------------------------------------------------------------

proof fn lemma_enc_learn_elems_push(s: Seq<LearnEntryV>, e: LearnEntryV)
    ensures
        enc_learn_elems(s.push(e)) == enc_learn_elems(s) + enc_learn_entry(e),
    decreases s.len(),
{
    if s.len() == 0 {
        assert(s.push(e)[0] == e);
        assert(s.push(e).drop_first() =~= Seq::<LearnEntryV>::empty());
        assert(enc_learn_elems(s.push(e)) == enc_learn_entry(e) + enc_learn_elems(
            Seq::<LearnEntryV>::empty(),
        ));
        assert(enc_learn_elems(s.push(e)) =~= enc_learn_elems(s) + enc_learn_entry(e));
    } else {
        assert(s.push(e)[0] == s[0]);
        assert(s.push(e).drop_first() =~= s.drop_first().push(e));
        lemma_enc_learn_elems_push(s.drop_first(), e);
        assert(enc_learn_elems(s.push(e)) == enc_learn_entry(s[0]) + (enc_learn_elems(
            s.drop_first(),
        ) + enc_learn_entry(e)));
        assert(enc_learn_elems(s.push(e)) =~= enc_learn_elems(s) + enc_learn_entry(e));
    }
}

/// Write a cache out as bytes.
pub fn encode_cache(c: &Cache) -> (r: Vec<u8>)
    ensures
        r@ == enc_cache(c@),
{
    let ghost st = c.switch_table.deep_view();
    let mut r = u64_to_le_bytes(c.switch_table.len() as u64);
    let mut i: usize = 0;
    while i < c.switch_table.len()
        invariant
            i <= c.switch_table@.len(),
            st == c.switch_table.deep_view(),
            st.len() == c.switch_table@.len(),
            r@ == enc_u64(st.len() as u64) + enc_learn_elems(st.take(i as int)),
        decreases c.switch_table@.len() - i,
    {
        let e = &c.switch_table[i];
        let mut id_bytes = u32_to_le_bytes(e.vrf_id);
        r.append(&mut id_bytes);
        let mut mac_bytes = vstd::slice::slice_to_vec(e.mac.as_slice());
        r.append(&mut mac_bytes);
        let mut origin_bytes = u32_to_le_bytes(e.origin);
        r.append(&mut origin_bytes);
        proof {
            lemma_enc_learn_elems_push(st.take(i as int), st[i as int]);
            assert(st.take(i + 1) =~= st.take(i as int).push(st[i as int]));
            assert(r@ =~= enc_u64(st.len() as u64) + enc_learn_elems(st.take(i + 1)));
        }
        i = i + 1;
    }
    proof {
        assert(st.take(st.len() as int) =~= st);
    }
    let mut vrf_bytes = crate::codec::encode_vrf_list(&c.vrf_table);
    r.append(&mut vrf_bytes);
    proof {
        assert(r@ =~= enc_cache(c@));
    }
    r
}

/// Read a cache back; `None` when the bytes do not decode.
pub fn decode_cache(b: &[u8]) -> (r: Option<Cache>)
    ensures
        match r {
            None => dec_cache(b@) is None,
            Some(c) => dec_cache(b@) == Some(c@),
        },
{
    proof {
        assert(b@.skip(0) =~= b@);
    }
    match read_u64(b, 0) {
        None => None,
        Some((n, off1)) => {
            proof {
                assert(b@.skip(0).skip(off1 as int) =~= b@.skip(off1 as int));
            }
            let mut acc: Vec<LearnEntry> = Vec::new();
            let mut cur: usize = off1;
            let mut i: u64 = 0;
            proof {
                assert(acc.deep_view() =~= Seq::<LearnEntryV>::empty());
            }
            loop
                invariant
                    off1 <= cur <= b@.len(),
                    i <= n,
                    acc@.len() == i,
                    dec_u64(b@) == Some((n, off1 as int)),
                    b@.skip(off1 as int) =~= b@.skip(0).skip(off1 as int),
                    (match dec_learn_elems(b@.skip(cur as int), (n - i) as nat) {
                        None => dec_learn_elems(b@.skip(off1 as int), n as nat) is None,
                        Some((tv, tc)) => dec_learn_elems(b@.skip(off1 as int), n as nat)
                            == Some((acc.deep_view() + tv, cur - off1 + tc)),
                    }),
                ensures
                    i == n,
                    off1 <= cur <= b@.len(),
                    (match dec_learn_elems(b@.skip(cur as int), (n - i) as nat) {
                        None => dec_learn_elems(b@.skip(off1 as int), n as nat) is None,
                        Some((tv, tc)) => dec_learn_elems(b@.skip(off1 as int), n as nat)
                            == Some((acc.deep_view() + tv, cur - off1 + tc)),
                    }),
                decreases n - i,
            {
                if i == n {
                    break;
                }
                match read_learn_entry(b, cur) {
                    None => {
                        return None;
                    },
                    Some((e, cur2)) => {
                        proof {
                            assert(b@.skip(cur as int).skip(cur2 - cur) =~= b@.skip(
                                cur2 as int,
                            ));
                        }
                        let ghost before = acc.deep_view();
                        let ghost ev = e@;
                        acc.push(e);
                        proof {
                            assert(acc.deep_view() =~= before.push(ev));
                        }
                        cur = cur2;
                        i = i + 1;
                    },
                }
            }
            proof {
                assert(dec_learn_elems(b@.skip(cur as int), 0) == Some((
                    Seq::<LearnEntryV>::empty(),
                    0int,
                )));
                assert(acc.deep_view() + Seq::<LearnEntryV>::empty() =~= acc.deep_view());
            }
            match crate::codec::read_vrf_list(b, cur) {
                None => None,
                Some((vrfs, _end)) => Some(Cache { switch_table: acc, vrf_table: vrfs }),
            }
        },
    }
}

/// Whether a VRF table keeps ids and names unique.
pub fn vrf_table_valid(vs: &Vec<Vrf>) -> (r: bool)
    ensures
        r == table_wf(vs.deep_view()),
{
    let ghost dv = vs.deep_view();
    let mut i: usize = 0;
    while i < vs.len()
        invariant
            i <= vs@.len(),
            dv == vs.deep_view(),
            dv.len() == vs@.len(),
            forall|a: int, b_: int|
                #![trigger dv[a], dv[b_]]
                0 <= a < b_ < dv.len() && a < i ==> dv[a].id != dv[b_].id && dv[a].name
                    != dv[b_].name,
        decreases vs@.len() - i,
    {
        let mut j: usize = i + 1;
        while j < vs.len()
            invariant
                i < j <= vs@.len(),
                i < vs@.len(),
                dv == vs.deep_view(),
                dv.len() == vs@.len(),
                forall|b_: int| #![trigger dv[b_]] i < b_ < j ==> dv[i as int].id != dv[b_].id
                    && dv[i as int].name != dv[b_].name,
            decreases vs@.len() - j,
        {
            if vs[i].id == vs[j].id || vs[i].name.eq(&vs[j].name) {
                proof {
                    assert(dv[i as int].id == dv[j as int].id || dv[i as int].name == dv[
                        j as int].name);
                    assert(!table_wf(dv));
                }
                return false;
            }
            j = j + 1;
        }
        i = i + 1;
    }
    true
}

/// Whether no VRF in the table counts the reserved operator id among its
/// members.
pub fn vrf_members_admissible(vs: &Vec<Vrf>) -> (r: bool)
    ensures
        r == no_reserved_member(vs.deep_view()),
{
    let ghost dv = vs.deep_view();
    let mut i: usize = 0;
    while i < vs.len()
        invariant
            i <= vs@.len(),
            dv == vs.deep_view(),
            dv.len() == vs@.len(),
            forall|k: int|
                0 <= k < i ==> !(#[trigger] dv[k]).members.contains(CONFIGURATION_SWITCH_ID),
        decreases vs@.len() - i,
    {
        if crate::types::members_contain(&vs[i].members, CONFIGURATION_SWITCH_ID) {
            proof {
                assert(dv[i as int].members.contains(CONFIGURATION_SWITCH_ID));
                assert(!no_reserved_member(dv));
            }
            return false;
        }
        i = i + 1;
    }
    true
}

/// Read a cache image back, tolerating anything: bytes that do not
/// decode, or a table that breaks an invariant — a duplicate id or name,
/// or the reserved operator id among members — yield the empty cache.
pub fn load_cache(b: &[u8]) -> (r: Cache)
    ensures
        (match dec_cache(b@) {
            Some(c) => if table_wf(c.vrf_table) && no_reserved_member(c.vrf_table) {
                r@ == c
            } else {
                r@.switch_table.len() == 0 && r@.vrf_table.len() == 0
            },
            None => r@.switch_table.len() == 0 && r@.vrf_table.len() == 0,
        }),
        table_wf(r@.vrf_table),
        no_reserved_member(r@.vrf_table),
{
    match decode_cache(b) {
        None => Cache::empty(),
        Some(c) => {
            if vrf_table_valid(&c.vrf_table) && vrf_members_admissible(&c.vrf_table) {
                c
            } else {
                Cache::empty()
            }
        },
    }
}

/// Read one binding at the cursor.
fn read_learn_entry(b: &[u8], off: usize) -> (r: Option<(LearnEntry, usize)>)
    requires
        off <= b@.len(),
    ensures
        match r {
            None => dec_learn_entry(b@.skip(off as int)) is None,
            Some((e, off2)) => off <= off2 <= b@.len() && dec_learn_entry(b@.skip(off as int))
                == Some((e@, off2 - off)),
        },
{
    match read_u32(b, off) {
        None => None,
        Some((vrf_id, o1)) => {
            if (b.len() - o1) < 6 {
                return None;
            }
            let mac_slice = vstd::slice::slice_subrange(b, o1, o1 + 6);
            let mac = crate::dataplane::get_destination_mac(mac_slice);
            proof {
                assert(b@.skip(off as int).subrange(o1 - off, o1 - off + 6) =~= b@.subrange(
                    o1 as int,
                    o1 as int + 6,
                ));
                assert(mac_slice@.subrange(0, 6) =~= mac_slice@);
            }
            match read_u32(b, o1 + 6) {
                None => {
                    proof {
                        assert(b@.skip(off as int).skip(o1 - off + 6) =~= b@.skip(
                            o1 as int + 6,
                        ));
                    }
                    None
                },
                Some((origin, o2)) => {
                    proof {
                        assert(b@.skip(off as int).skip(o1 - off + 6) =~= b@.skip(
                            o1 as int + 6,
                        ));
                    }
                    Some((LearnEntry { vrf_id, mac, origin }, o2))
                },
            }
        },
    }
}

} // verus!
