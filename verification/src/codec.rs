//! The wire codec.
//!
//! Every message is the canonical binary encoding of a tagged union:
//! integers are little-endian fixed width, enum tags are 32-bit, vectors
//! and strings carry a 64-bit length prefix, and an option is a one-byte
//! discriminant followed by the payload when present.  The encoder cannot
//! fail on well-formed values; the decoder reports failure by `None` and
//! ignores trailing bytes, since a transport read may hand back a larger
//! buffer than one message.

use vstd::prelude::*;
use vstd::bytes::*;
use vstd::utf8::*;
use vstd::slice::*;
use vstd::string::*;

use crate::types::{Vrf, VrfV, VrfAction, VrfActionV, Packet, PacketV, Ping, Data, DataV, SwitchId};

verus! {

// ---------------------------------------------------------------------------
// Specification: encoding
// ---------------------------------------------------------------------------

/// A 32-bit integer on the wire: four bytes, little endian.
pub open spec fn enc_u32(x: u32) -> Seq<u8> {
    spec_u32_to_le_bytes(x)
}

/// A 64-bit integer on the wire: eight bytes, little endian.
pub open spec fn enc_u64(x: u64) -> Seq<u8> {
    spec_u64_to_le_bytes(x)
}

/// A byte string: 64-bit length prefix, then the bytes.
pub open spec fn enc_bytes(b: Seq<u8>) -> Seq<u8>
    recommends
        b.len() <= u64::MAX,
{
    enc_u64(b.len() as u64) + b
}

/// A character string: its UTF-8 bytes as a byte string.
pub open spec fn enc_string(s: Seq<char>) -> Seq<u8> {
    enc_bytes(encode_utf8(s))
}

/// The elements of a list of 32-bit integers, back to back.
pub open spec fn enc_u32_elems(v: Seq<u32>) -> Seq<u8>
    decreases v.len(),
{
    if v.len() == 0 {
        Seq::empty()
    } else {
        enc_u32(v[0]) + enc_u32_elems(v.drop_first())
    }
}

/// A list of 32-bit integers: 64-bit count, then the elements.
pub open spec fn enc_u32_list(v: Seq<u32>) -> Seq<u8>
    recommends
        v.len() <= u64::MAX,
{
    enc_u64(v.len() as u64) + enc_u32_elems(v)
}

// ---------------------------------------------------------------------------
// Specification: decoding
//
// Each decoder takes the remaining input and yields the decoded value and
// the number of bytes consumed, or `None` if the input does not decode.
// ---------------------------------------------------------------------------

/// Decode a 32-bit little-endian integer.
pub open spec fn dec_u32(b: Seq<u8>) -> Option<(u32, int)> {
    if b.len() >= 4 {
        Some((spec_u32_from_le_bytes(b.subrange(0, 4)), 4int))
    } else {
        None
    }
}

/// Decode a 64-bit little-endian integer.
pub open spec fn dec_u64(b: Seq<u8>) -> Option<(u64, int)> {
    if b.len() >= 8 {
        Some((spec_u64_from_le_bytes(b.subrange(0, 8)), 8int))
    } else {
        None
    }
}

/// Decode a length-prefixed byte string.
pub open spec fn dec_bytes(b: Seq<u8>) -> Option<(Seq<u8>, int)> {
    match dec_u64(b) {
        None => None,
        Some((n, c)) => if b.len() >= c + n {
            Some((b.subrange(c, c + n), c + n))
        } else {
            None
        },
    }
}

/// Decode a length-prefixed UTF-8 string.
pub open spec fn dec_string(b: Seq<u8>) -> Option<(Seq<char>, int)> {
    match dec_bytes(b) {
        None => None,
        Some((bs, c)) => if valid_utf8(bs) {
            Some((decode_utf8(bs), c))
        } else {
            None
        },
    }
}

/// Decode exactly `n` 32-bit integers, back to back.
pub open spec fn dec_u32_elems(b: Seq<u8>, n: nat) -> Option<(Seq<u32>, int)>
    decreases n,
{
    if n == 0 {
        Some((Seq::empty(), 0int))
    } else {
        match dec_u32(b) {
            None => None,
            Some((x, c)) => match dec_u32_elems(b.skip(c), (n - 1) as nat) {
                None => None,
                Some((v, c2)) => Some((seq![x] + v, c + c2)),
            },
        }
    }
}

/// Decode a length-prefixed list of 32-bit integers.
pub open spec fn dec_u32_list(b: Seq<u8>) -> Option<(Seq<u32>, int)> {
    match dec_u64(b) {
        None => None,
        Some((n, c)) => match dec_u32_elems(b.skip(c), n as nat) {
            None => None,
            Some((v, c2)) => Some((v, c + c2)),
        },
    }
}

// ---------------------------------------------------------------------------
// Round trips: decoding an encoding, with any suffix behind it, yields the
// encoded value and consumes exactly the encoding.
// ---------------------------------------------------------------------------

pub proof fn lemma_dec_enc_u32(x: u32, rest: Seq<u8>)
    ensures
        dec_u32(enc_u32(x) + rest) == Some((x, 4int)),
{
    lemma_auto_spec_u32_to_from_le_bytes();
    assert((enc_u32(x) + rest).subrange(0, 4) =~= enc_u32(x));
}

pub proof fn lemma_dec_enc_u64(x: u64, rest: Seq<u8>)
    ensures
        dec_u64(enc_u64(x) + rest) == Some((x, 8int)),
{
    lemma_auto_spec_u64_to_from_le_bytes();
    assert((enc_u64(x) + rest).subrange(0, 8) =~= enc_u64(x));
}

pub proof fn lemma_dec_enc_bytes(bs: Seq<u8>, rest: Seq<u8>)
    requires
        bs.len() <= u64::MAX,
    ensures
        dec_bytes(enc_bytes(bs) + rest) == Some((bs, enc_bytes(bs).len() as int)),
{
    let whole = enc_bytes(bs) + rest;
    assert(whole =~= enc_u64(bs.len() as u64) + (bs + rest));
    lemma_dec_enc_u64(bs.len() as u64, bs + rest);
    lemma_auto_spec_u64_to_from_le_bytes();
    assert(whole.subrange(8, 8 + bs.len() as int) =~= bs);
}

pub proof fn lemma_dec_enc_string(s: Seq<char>, rest: Seq<u8>)
    requires
        encode_utf8(s).len() <= u64::MAX,
    ensures
        dec_string(enc_string(s) + rest) == Some((s, enc_string(s).len() as int)),
{
    broadcast use encode_utf8_valid_utf8, encode_utf8_decode_utf8;

    lemma_dec_enc_bytes(encode_utf8(s), rest);
}

pub proof fn lemma_dec_enc_u32_elems(v: Seq<u32>, rest: Seq<u8>)
    ensures
        dec_u32_elems(enc_u32_elems(v) + rest, v.len()) == Some((
            v,
            enc_u32_elems(v).len() as int,
        )),
    decreases v.len(),
{
    lemma_auto_spec_u32_to_from_le_bytes();
    if v.len() == 0 {
        assert(enc_u32_elems(v) + rest =~= rest);
        assert(Seq::<u32>::empty() =~= v);
    } else {
        let whole = enc_u32_elems(v) + rest;
        let tail_enc = enc_u32_elems(v.drop_first());
        assert(whole =~= enc_u32(v[0]) + (tail_enc + rest));
        lemma_dec_enc_u32(v[0], tail_enc + rest);
        assert(whole.skip(4) =~= tail_enc + rest);
        lemma_dec_enc_u32_elems(v.drop_first(), rest);
        assert(seq![v[0]] + v.drop_first() =~= v);
    }
}

pub proof fn lemma_dec_enc_u32_list(v: Seq<u32>, rest: Seq<u8>)
    requires
        v.len() <= u64::MAX,
    ensures
        dec_u32_list(enc_u32_list(v) + rest) == Some((v, enc_u32_list(v).len() as int)),
{
    lemma_auto_spec_u64_to_from_le_bytes();
    let whole = enc_u32_list(v) + rest;
    assert(whole =~= enc_u64(v.len() as u64) + (enc_u32_elems(v) + rest));
    lemma_dec_enc_u64(v.len() as u64, enc_u32_elems(v) + rest);
    assert(whole.skip(8) =~= enc_u32_elems(v) + rest);
    lemma_dec_enc_u32_elems(v, rest);
}

// ---------------------------------------------------------------------------
// Executable decoding primitives, cursor style: each reads at `off` into the
// buffer and reports the value with the new offset, mirroring the
// specification decoder on the remaining bytes.
// ---------------------------------------------------------------------------

/// Read four little-endian bytes as a `u32`.
pub fn read_u32(b: &[u8], off: usize) -> (r: Option<(u32, usize)>)
    requires
        off <= b@.len(),
    ensures
        match r {
            None => dec_u32(b@.skip(off as int)) is None,
            Some((x, off2)) => off <= off2 <= b@.len() && dec_u32(b@.skip(off as int))
                == Some((x, off2 - off)),
        },
{
    if b.len() - off >= 4 {
        let s = slice_subrange(b, off, off + 4);
        let x = u32_from_le_bytes(s);
        proof {
            assert(b@.skip(off as int).subrange(0, 4) =~= b@.subrange(
                off as int,
                off as int + 4,
            ));
        }
        Some((x, off + 4))
    } else {
        None
    }
}

/// Read eight little-endian bytes as a `u64`.
pub fn read_u64(b: &[u8], off: usize) -> (r: Option<(u64, usize)>)
    requires
        off <= b@.len(),
    ensures
        match r {
            None => dec_u64(b@.skip(off as int)) is None,
            Some((x, off2)) => off <= off2 <= b@.len() && dec_u64(b@.skip(off as int))
                == Some((x, off2 - off)),
        },
{
    if b.len() - off >= 8 {
        let s = slice_subrange(b, off, off + 8);
        let x = u64_from_le_bytes(s);
        proof {
            assert(b@.skip(off as int).subrange(0, 8) =~= b@.subrange(
                off as int,
                off as int + 8,
            ));
        }
        Some((x, off + 8))
    } else {
        None
    }
}

/// Read a length-prefixed byte string.
pub fn read_bytes(b: &[u8], off: usize) -> (r: Option<(Vec<u8>, usize)>)
    requires
        off <= b@.len(),
    ensures
        match r {
            None => dec_bytes(b@.skip(off as int)) is None,
            Some((v, off2)) => off <= off2 <= b@.len() && dec_bytes(b@.skip(off as int))
                == Some((v@, off2 - off)),
        },
{
    match read_u64(b, off) {
        None => None,
        Some((n, off1)) => {
            if n > (b.len() - off1) as u64 {
                None
            } else {
                let n = n as usize;
                let s = slice_subrange(b, off1, off1 + n);
                let v = slice_to_vec(s);
                proof {
                    assert(b@.skip(off as int).subrange(
                        off1 - off,
                        off1 - off + n as int,
                    ) =~= b@.subrange(off1 as int, off1 as int + n as int));
                }
                Some((v, off1 + n))
            }
        },
    }
}

/// Relies on `String::from_utf8`: it returns the string whose UTF-8
/// encoding is the given bytes, and an error iff the bytes are not valid
/// UTF-8.
#[verifier::external_body]
fn bytes_to_string(v: Vec<u8>) -> (r: Option<String>)
    ensures
        r is Some <==> valid_utf8(v@),
        r matches Some(s) ==> s@ == decode_utf8(v@),
{
    String::from_utf8(v).ok()
}

/// Read a length-prefixed UTF-8 string.
pub fn read_string(b: &[u8], off: usize) -> (r: Option<(String, usize)>)
    requires
        off <= b@.len(),
    ensures
        match r {
            None => dec_string(b@.skip(off as int)) is None,
            Some((s, off2)) => off <= off2 <= b@.len() && dec_string(b@.skip(off as int))
                == Some((s@, off2 - off)),
        },
{
    match read_bytes(b, off) {
        None => None,
        Some((v, off2)) => match bytes_to_string(v) {
            None => None,
            Some(s) => Some((s, off2)),
        },
    }
}

/// Read a length-prefixed list of 32-bit integers.
pub fn read_u32_list(b: &[u8], off: usize) -> (r: Option<(Vec<u32>, usize)>)
    requires
        off <= b@.len(),
    ensures
        match r {
            None => dec_u32_list(b@.skip(off as int)) is None,
            Some((v, off2)) => off <= off2 <= b@.len() && dec_u32_list(b@.skip(off as int))
                == Some((v@, off2 - off)),
        },
{
    match read_u64(b, off) {
        None => None,
        Some((n, off1)) => {
            proof {
                assert(b@.skip(off as int).skip(off1 - off) =~= b@.skip(off1 as int));
            }
            let mut acc: Vec<u32> = Vec::new();
            let mut cur: usize = off1;
            let mut i: u64 = 0;
            loop
                invariant
                    off <= off1 <= cur <= b@.len(),
                    i <= n,
                    acc@.len() == i,
                    dec_u64(b@.skip(off as int)) == Some((n, off1 - off)),
                    b@.skip(off as int).skip(off1 - off) =~= b@.skip(off1 as int),
                    (match dec_u32_elems(b@.skip(cur as int), (n - i) as nat) {
                        None => dec_u32_elems(b@.skip(off1 as int), n as nat) is None,
                        Some((tv, tc)) => dec_u32_elems(b@.skip(off1 as int), n as nat)
                            == Some((acc@ + tv, cur - off1 + tc)),
                    }),
                ensures
                    i == n,
                    off <= off1 <= cur <= b@.len(),
                    acc@.len() == i,
                    (match dec_u32_elems(b@.skip(cur as int), (n - i) as nat) {
                        None => dec_u32_elems(b@.skip(off1 as int), n as nat) is None,
                        Some((tv, tc)) => dec_u32_elems(b@.skip(off1 as int), n as nat)
                            == Some((acc@ + tv, cur - off1 + tc)),
                    }),
                decreases n - i,
            {
                if i == n {
                    break;
                }
                match read_u32(b, cur) {
                    None => {
                        return None;
                    },
                    Some((x, cur2)) => {
                        proof {
                            assert(b@.skip(cur as int).skip(4) =~= b@.skip(cur as int + 4));
                        }
                        acc.push(x);
                        cur = cur2;
                        i = i + 1;
                    },
                }
            }
            proof {
                assert(dec_u32_elems(b@.skip(cur as int), 0) == Some((
                    Seq::<u32>::empty(),
                    0int,
                )));
                assert(acc@ + Seq::<u32>::empty() =~= acc@);
            }
            Some((acc, cur))
        },
    }
}

// ---------------------------------------------------------------------------
// Specification: compound values
// ---------------------------------------------------------------------------

/// A VRF on the wire: id, name, members.
pub open spec fn enc_vrf(v: VrfV) -> Seq<u8> {
    enc_u32(v.id) + enc_string(v.name) + enc_u32_list(v.members)
}

/// The elements of a list of VRFs, back to back.
pub open spec fn enc_vrf_elems(vs: Seq<VrfV>) -> Seq<u8>
    decreases vs.len(),
{
    if vs.len() == 0 {
        Seq::empty()
    } else {
        enc_vrf(vs[0]) + enc_vrf_elems(vs.drop_first())
    }
}

/// A list of VRFs: 64-bit count, then the elements.
pub open spec fn enc_vrf_list(vs: Seq<VrfV>) -> Seq<u8>
    recommends
        vs.len() <= u64::MAX,
{
    enc_u64(vs.len() as u64) + enc_vrf_elems(vs)
}

/// An optional list of VRFs: one discriminant byte, then the payload.
pub open spec fn enc_opt_vrf_list(o: Option<Seq<VrfV>>) -> Seq<u8> {
    match o {
        None => seq![0u8],
        Some(vs) => seq![1u8] + enc_vrf_list(vs),
    }
}

/// A control-plane action: 32-bit variant tag, then the payload.
pub open spec fn enc_action(a: VrfActionV) -> Seq<u8> {
    match a {
        VrfActionV::List(o) => enc_u32(0) + enc_opt_vrf_list(o),
        VrfActionV::Create(v) => enc_u32(1) + enc_vrf(v),
        VrfActionV::Delete { id } => enc_u32(2) + enc_u32(id),
        VrfActionV::AddMember { id, members } => enc_u32(3) + enc_u32(id) + enc_u32_list(
            members,
        ),
        VrfActionV::RemoveMember { id, members } => enc_u32(4) + enc_u32(id) + enc_u32_list(
            members,
        ),
    }
}

/// A packet: 32-bit variant tag, then the payload.
pub open spec fn enc_packet(p: PacketV) -> Seq<u8> {
    match p {
        PacketV::Ping => enc_u32(0),
        PacketV::VrfAction(a) => enc_u32(1) + enc_action(a),
        PacketV::Data(d) => enc_u32(2) + enc_u32(d.vrf_id) + enc_bytes(d.data),
    }
}

/// Decode a VRF.
pub open spec fn dec_vrf(b: Seq<u8>) -> Option<(VrfV, int)> {
    match dec_u32(b) {
        None => None,
        Some((id, c1)) => match dec_string(b.skip(c1)) {
            None => None,
            Some((name, c2)) => match dec_u32_list(b.skip(c1 + c2)) {
                None => None,
                Some((members, c3)) => Some(
                    (VrfV { id, name, members }, c1 + c2 + c3),
                ),
            },
        },
    }
}

/// Decode exactly `n` VRFs, back to back.
pub open spec fn dec_vrf_elems(b: Seq<u8>, n: nat) -> Option<(Seq<VrfV>, int)>
    decreases n,
{
    if n == 0 {
        Some((Seq::empty(), 0int))
    } else {
        match dec_vrf(b) {
            None => None,
            Some((v, c)) => match dec_vrf_elems(b.skip(c), (n - 1) as nat) {
                None => None,
                Some((vs, c2)) => Some((seq![v] + vs, c + c2)),
            },
        }
    }
}

/// Decode a length-prefixed list of VRFs.
pub open spec fn dec_vrf_list(b: Seq<u8>) -> Option<(Seq<VrfV>, int)> {
    match dec_u64(b) {
        None => None,
        Some((n, c)) => match dec_vrf_elems(b.skip(c), n as nat) {
            None => None,
            Some((vs, c2)) => Some((vs, c + c2)),
        },
    }
}

/// Decode an optional list of VRFs.
pub open spec fn dec_opt_vrf_list(b: Seq<u8>) -> Option<(Option<Seq<VrfV>>, int)> {
    if b.len() < 1 {
        None
    } else if b[0] == 0 {
        Some((None, 1int))
    } else if b[0] == 1 {
        match dec_vrf_list(b.skip(1)) {
            None => None,
            Some((vs, c)) => Some((Some(vs), 1 + c)),
        }
    } else {
        None
    }
}

/// Decode a control-plane action.
pub open spec fn dec_action(b: Seq<u8>) -> Option<(VrfActionV, int)> {
    match dec_u32(b) {
        None => None,
        Some((tag, c)) => if tag == 0 {
            match dec_opt_vrf_list(b.skip(c)) {
                None => None,
                Some((o, c2)) => Some((VrfActionV::List(o), c + c2)),
            }
        } else if tag == 1 {
            match dec_vrf(b.skip(c)) {
                None => None,
                Some((v, c2)) => Some((VrfActionV::Create(v), c + c2)),
            }
        } else if tag == 2 {
            match dec_u32(b.skip(c)) {
                None => None,
                Some((id, c2)) => Some((VrfActionV::Delete { id }, c + c2)),
            }
        } else if tag == 3 {
            match dec_u32(b.skip(c)) {
                None => None,
                Some((id, c2)) => match dec_u32_list(b.skip(c + c2)) {
                    None => None,
                    Some((members, c3)) => Some(
                        (VrfActionV::AddMember { id, members }, c + c2 + c3),
                    ),
                },
            }
        } else if tag == 4 {
            match dec_u32(b.skip(c)) {
                None => None,
                Some((id, c2)) => match dec_u32_list(b.skip(c + c2)) {
                    None => None,
                    Some((members, c3)) => Some(
                        (VrfActionV::RemoveMember { id, members }, c + c2 + c3),
                    ),
                },
            }
        } else {
            None
        },
    }
}

/// Decode a packet.
pub open spec fn dec_packet(b: Seq<u8>) -> Option<(PacketV, int)> {
    match dec_u32(b) {
        None => None,
        Some((tag, c)) => if tag == 0 {
            Some((PacketV::Ping, c))
        } else if tag == 1 {
            match dec_action(b.skip(c)) {
                None => None,
                Some((a, c2)) => Some((PacketV::VrfAction(a), c + c2)),
            }
        } else if tag == 2 {
            match dec_u32(b.skip(c)) {
                None => None,
                Some((id, c2)) => match dec_bytes(b.skip(c + c2)) {
                    None => None,
                    Some((data, c3)) => Some(
                        (PacketV::Data(DataV { vrf_id: id, data }), c + c2 + c3),
                    ),
                },
            }
        } else {
            None
        },
    }
}

// ---------------------------------------------------------------------------
// Well-formedness: what the encoder can represent.  Every value built in
// executable code satisfies it, since vectors and strings are bounded by
// the address space.
// ---------------------------------------------------------------------------

pub open spec fn wf_vrf(v: VrfV) -> bool {
    &&& encode_utf8(v.name).len() <= u64::MAX
    &&& v.members.len() <= u64::MAX
}

pub open spec fn wf_vrf_list(vs: Seq<VrfV>) -> bool {
    &&& vs.len() <= u64::MAX
    &&& forall|i: int| 0 <= i < vs.len() ==> wf_vrf(#[trigger] vs[i])
}

pub open spec fn wf_action(a: VrfActionV) -> bool {
    match a {
        VrfActionV::List(None) => true,
        VrfActionV::List(Some(vs)) => wf_vrf_list(vs),
        VrfActionV::Create(v) => wf_vrf(v),
        VrfActionV::Delete { .. } => true,
        VrfActionV::AddMember { members, .. } => members.len() <= u64::MAX,
        VrfActionV::RemoveMember { members, .. } => members.len() <= u64::MAX,
    }
}

pub open spec fn wf_packet(p: PacketV) -> bool {
    match p {
        PacketV::Ping => true,
        PacketV::VrfAction(a) => wf_action(a),
        PacketV::Data(d) => d.data.len() <= u64::MAX,
    }
}

// ---------------------------------------------------------------------------
// Round trips for the compound values.
// ---------------------------------------------------------------------------

pub proof fn lemma_dec_enc_vrf(v: VrfV, rest: Seq<u8>)
    requires
        wf_vrf(v),
    ensures
        dec_vrf(enc_vrf(v) + rest) == Some((v, enc_vrf(v).len() as int)),
{
    lemma_auto_spec_u32_to_from_le_bytes();
    lemma_auto_spec_u64_to_from_le_bytes();
    let whole = enc_vrf(v) + rest;
    let after_id = enc_string(v.name) + (enc_u32_list(v.members) + rest);
    assert(whole =~= enc_u32(v.id) + after_id);
    lemma_dec_enc_u32(v.id, after_id);
    assert(whole.skip(4) =~= after_id);
    lemma_dec_enc_string(v.name, enc_u32_list(v.members) + rest);
    let c2 = enc_string(v.name).len() as int;
    assert(after_id.skip(c2) =~= enc_u32_list(v.members) + rest);
    assert(whole.skip(4 + c2) =~= enc_u32_list(v.members) + rest);
    lemma_dec_enc_u32_list(v.members, rest);
}

pub proof fn lemma_dec_enc_vrf_elems(vs: Seq<VrfV>, rest: Seq<u8>)
    requires
        forall|i: int| 0 <= i < vs.len() ==> wf_vrf(#[trigger] vs[i]),
    ensures
        dec_vrf_elems(enc_vrf_elems(vs) + rest, vs.len()) == Some((
            vs,
            enc_vrf_elems(vs).len() as int,
        )),
    decreases vs.len(),
{
    if vs.len() == 0 {
        assert(enc_vrf_elems(vs) + rest =~= rest);
        assert(Seq::<VrfV>::empty() =~= vs);
    } else {
        let whole = enc_vrf_elems(vs) + rest;
        let tail_enc = enc_vrf_elems(vs.drop_first());
        assert(whole =~= enc_vrf(vs[0]) + (tail_enc + rest));
        lemma_dec_enc_vrf(vs[0], tail_enc + rest);
        let c = enc_vrf(vs[0]).len() as int;
        assert(whole.skip(c) =~= tail_enc + rest);
        lemma_dec_enc_vrf_elems(vs.drop_first(), rest);
        assert(seq![vs[0]] + vs.drop_first() =~= vs);
    }
}

pub proof fn lemma_dec_enc_vrf_list(vs: Seq<VrfV>, rest: Seq<u8>)
    requires
        wf_vrf_list(vs),
    ensures
        dec_vrf_list(enc_vrf_list(vs) + rest) == Some((vs, enc_vrf_list(vs).len() as int)),
{
    lemma_auto_spec_u64_to_from_le_bytes();
    let whole = enc_vrf_list(vs) + rest;
    assert(whole =~= enc_u64(vs.len() as u64) + (enc_vrf_elems(vs) + rest));
    lemma_dec_enc_u64(vs.len() as u64, enc_vrf_elems(vs) + rest);
    assert(whole.skip(8) =~= enc_vrf_elems(vs) + rest);
    lemma_dec_enc_vrf_elems(vs, rest);
}

pub proof fn lemma_dec_enc_opt_vrf_list(o: Option<Seq<VrfV>>, rest: Seq<u8>)
    requires
        o matches Some(vs) ==> wf_vrf_list(vs),
    ensures
        dec_opt_vrf_list(enc_opt_vrf_list(o) + rest) == Some((
            o,
            enc_opt_vrf_list(o).len() as int,
        )),
{
    match o {
        None => {
            assert((enc_opt_vrf_list(o) + rest)[0] == 0);
        },
        Some(vs) => {
            let whole = enc_opt_vrf_list(o) + rest;
            assert(whole[0] == 1);
            assert(whole.skip(1) =~= enc_vrf_list(vs) + rest);
            lemma_dec_enc_vrf_list(vs, rest);
        },
    }
}

pub proof fn lemma_dec_enc_action(a: VrfActionV, rest: Seq<u8>)
    requires
        wf_action(a),
    ensures
        dec_action(enc_action(a) + rest) == Some((a, enc_action(a).len() as int)),
{
    lemma_auto_spec_u32_to_from_le_bytes();
    let whole = enc_action(a) + rest;
    match a {
        VrfActionV::List(o) => {
            let after = enc_opt_vrf_list(o) + rest;
            assert(whole =~= enc_u32(0) + after);
            lemma_dec_enc_u32(0, after);
            assert(whole.skip(4) =~= after);
            lemma_dec_enc_opt_vrf_list(o, rest);
        },
        VrfActionV::Create(v) => {
            let after = enc_vrf(v) + rest;
            assert(whole =~= enc_u32(1) + after);
            lemma_dec_enc_u32(1, after);
            assert(whole.skip(4) =~= after);
            lemma_dec_enc_vrf(v, rest);
        },
        VrfActionV::Delete { id } => {
            let after = enc_u32(id) + rest;
            assert(whole =~= enc_u32(2) + after);
            lemma_dec_enc_u32(2, after);
            assert(whole.skip(4) =~= after);
            lemma_dec_enc_u32(id, rest);
        },
        VrfActionV::AddMember { id, members } => {
            let after = enc_u32(id) + (enc_u32_list(members) + rest);
            assert(whole =~= enc_u32(3) + after);
            lemma_dec_enc_u32(3, after);
            assert(whole.skip(4) =~= after);
            lemma_dec_enc_u32(id, enc_u32_list(members) + rest);
            assert(after.skip(4) =~= enc_u32_list(members) + rest);
            assert(whole.skip(8) =~= enc_u32_list(members) + rest);
            lemma_dec_enc_u32_list(members, rest);
        },
        VrfActionV::RemoveMember { id, members } => {
            let after = enc_u32(id) + (enc_u32_list(members) + rest);
            assert(whole =~= enc_u32(4) + after);
            lemma_dec_enc_u32(4, after);
            assert(whole.skip(4) =~= after);
            lemma_dec_enc_u32(id, enc_u32_list(members) + rest);
            assert(after.skip(4) =~= enc_u32_list(members) + rest);
            assert(whole.skip(8) =~= enc_u32_list(members) + rest);
            lemma_dec_enc_u32_list(members, rest);
        },
    }
}

/// Decoding an encoded packet, whatever trails it, yields the packet back
/// and consumes exactly the encoding.
pub proof fn lemma_dec_enc_packet(p: PacketV, rest: Seq<u8>)
    requires
        wf_packet(p),
    ensures
        dec_packet(enc_packet(p) + rest) == Some((p, enc_packet(p).len() as int)),
{
    lemma_auto_spec_u32_to_from_le_bytes();
    lemma_auto_spec_u64_to_from_le_bytes();
    let whole = enc_packet(p) + rest;
    match p {
        PacketV::Ping => {
            assert(whole =~= enc_u32(0) + rest);
            lemma_dec_enc_u32(0, rest);
        },
        PacketV::VrfAction(a) => {
            let after = enc_action(a) + rest;
            assert(whole =~= enc_u32(1) + after);
            lemma_dec_enc_u32(1, after);
            assert(whole.skip(4) =~= after);
            lemma_dec_enc_action(a, rest);
        },
        PacketV::Data(d) => {
            let after = enc_u32(d.vrf_id) + (enc_bytes(d.data) + rest);
            assert(whole =~= enc_u32(2) + after);
            lemma_dec_enc_u32(2, after);
            assert(whole.skip(4) =~= after);
            lemma_dec_enc_u32(d.vrf_id, enc_bytes(d.data) + rest);
            assert(after.skip(4) =~= enc_bytes(d.data) + rest);
            assert(whole.skip(8) =~= enc_bytes(d.data) + rest);
            lemma_dec_enc_bytes(d.data, rest);
        },
    }
}

/// For every well-formed packet, decoding its encoding yields it back.
pub proof fn lemma_packet_round_trip(p: PacketV)
    requires
        wf_packet(p),
    ensures
        dec_packet(enc_packet(p)) == Some((p, enc_packet(p).len() as int)),
{
    lemma_dec_enc_packet(p, Seq::empty());
    assert(enc_packet(p) + Seq::<u8>::empty() =~= enc_packet(p));
}

/// For every switch id, decoding its encoding yields it back.
pub proof fn lemma_switch_id_round_trip(s: SwitchId)
    ensures
        dec_u32(enc_u32(s)) == Some((s, 4int)),
{
    lemma_dec_enc_u32(s, Seq::empty());
    assert(enc_u32(s) + Seq::<u8>::empty() =~= enc_u32(s));
}

// ---------------------------------------------------------------------------
// Executable encoding
// ---------------------------------------------------------------------------

proof fn lemma_enc_u32_elems_push(v: Seq<u32>, x: u32)
    ensures
        enc_u32_elems(v.push(x)) == enc_u32_elems(v) + enc_u32(x),
    decreases v.len(),
{
    if v.len() == 0 {
        assert(v.push(x)[0] == x);
        assert(v.push(x).drop_first() =~= Seq::<u32>::empty());
        assert(enc_u32_elems(v.push(x)) == enc_u32(x) + enc_u32_elems(Seq::<u32>::empty()));
        assert(enc_u32_elems(v.push(x)) =~= enc_u32_elems(v) + enc_u32(x));
    } else {
        assert(v.push(x).len() == v.len() + 1);
        assert(v.push(x)[0] == v[0]);
        assert(v.push(x).drop_first() =~= v.drop_first().push(x));
        lemma_enc_u32_elems_push(v.drop_first(), x);
        assert(enc_u32_elems(v.push(x)) == enc_u32(v[0]) + (enc_u32_elems(v.drop_first())
            + enc_u32(x)));
        assert(enc_u32_elems(v.push(x)) =~= enc_u32_elems(v) + enc_u32(x));
    }
}

proof fn lemma_enc_vrf_elems_push(vs: Seq<VrfV>, x: VrfV)
    ensures
        enc_vrf_elems(vs.push(x)) == enc_vrf_elems(vs) + enc_vrf(x),
    decreases vs.len(),
{
    if vs.len() == 0 {
        assert(vs.push(x)[0] == x);
        assert(vs.push(x).drop_first() =~= Seq::<VrfV>::empty());
        assert(enc_vrf_elems(vs.push(x)) == enc_vrf(x) + enc_vrf_elems(Seq::<VrfV>::empty()));
        assert(enc_vrf_elems(vs.push(x)) =~= enc_vrf_elems(vs) + enc_vrf(x));
    } else {
        assert(vs.push(x).len() == vs.len() + 1);
        assert(vs.push(x)[0] == vs[0]);
        assert(vs.push(x).drop_first() =~= vs.drop_first().push(x));
        lemma_enc_vrf_elems_push(vs.drop_first(), x);
        assert(enc_vrf_elems(vs.push(x)) == enc_vrf(vs[0]) + (enc_vrf_elems(vs.drop_first())
            + enc_vrf(x)));
        assert(enc_vrf_elems(vs.push(x)) =~= enc_vrf_elems(vs) + enc_vrf(x));
    }
}

/// Encode a switch id, as exchanged during the handshake.
pub fn encode_switch_id(x: SwitchId) -> (r: Vec<u8>)
    ensures
        r@ == enc_u32(x),
{
    u32_to_le_bytes(x)
}

fn encode_u32_list(v: &Vec<u32>) -> (r: Vec<u8>)
    ensures
        r@ == enc_u32_list(v@),
{
    let mut r = u64_to_le_bytes(v.len() as u64);
    let mut i: usize = 0;
    while i < v.len()
        invariant
            i <= v@.len(),
            r@ == enc_u64(v@.len() as u64) + enc_u32_elems(v@.take(i as int)),
        decreases v@.len() - i,
    {
        let mut e = u32_to_le_bytes(v[i]);
        r.append(&mut e);
        proof {
            lemma_enc_u32_elems_push(v@.take(i as int), v@[i as int]);
            assert(v@.take(i + 1) =~= v@.take(i as int).push(v@[i as int]));
            assert(r@ =~= enc_u64(v@.len() as u64) + enc_u32_elems(v@.take(i + 1)));
        }
        i = i + 1;
    }
    proof {
        assert(v@.take(v@.len() as int) =~= v@);
    }
    r
}

fn encode_string(s: &String) -> (r: Vec<u8>)
    ensures
        r@ == enc_string(s@),
{
    let mut bs = s.as_str().as_bytes_vec();
    let mut r = u64_to_le_bytes(bs.len() as u64);
    r.append(&mut bs);
    r
}

fn encode_vrf(v: &Vrf) -> (r: Vec<u8>)
    ensures
        r@ == enc_vrf(v@),
{
    let mut r = u32_to_le_bytes(v.id);
    let mut name = encode_string(&v.name);
    let mut members = encode_u32_list(&v.members);
    r.append(&mut name);
    r.append(&mut members);
    proof {
        assert(r@ =~= enc_vrf(v@));
    }
    r
}

pub fn encode_vrf_list(vs: &Vec<Vrf>) -> (r: Vec<u8>)
    ensures
        r@ == enc_vrf_list(vs.deep_view()),
{
    let mut r = u64_to_le_bytes(vs.len() as u64);
    let mut i: usize = 0;
    while i < vs.len()
        invariant
            i <= vs@.len(),
            vs.deep_view().len() == vs@.len(),
            r@ == enc_u64(vs@.len() as u64) + enc_vrf_elems(vs.deep_view().take(i as int)),
        decreases vs@.len() - i,
    {
        let mut e = encode_vrf(&vs[i]);
        r.append(&mut e);
        proof {
            lemma_enc_vrf_elems_push(vs.deep_view().take(i as int), vs.deep_view()[i as int]);
            assert(vs.deep_view().take(i + 1) =~= vs.deep_view().take(i as int).push(
                vs.deep_view()[i as int],
            ));
            assert(r@ =~= enc_u64(vs@.len() as u64) + enc_vrf_elems(
                vs.deep_view().take(i + 1),
            ));
        }
        i = i + 1;
    }
    proof {
        assert(vs.deep_view().take(vs@.len() as int) =~= vs.deep_view());
    }
    r
}

fn encode_action(a: &VrfAction) -> (r: Vec<u8>)
    ensures
        r@ == enc_action(a@),
{
    match a {
        VrfAction::List(o) => {
            let mut r = u32_to_le_bytes(0);
            match o {
                None => {
                    r.push(0);
                },
                Some(vs) => {
                    r.push(1);
                    let mut e = encode_vrf_list(vs);
                    r.append(&mut e);
                },
            }
            proof {
                assert(r@ =~= enc_action(a@));
            }
            r
        },
        VrfAction::Create(v) => {
            let mut r = u32_to_le_bytes(1);
            let mut e = encode_vrf(v);
            r.append(&mut e);
            proof {
                assert(r@ =~= enc_action(a@));
            }
            r
        },
        VrfAction::Delete { id } => {
            let mut r = u32_to_le_bytes(2);
            let mut e = u32_to_le_bytes(*id);
            r.append(&mut e);
            proof {
                assert(r@ =~= enc_action(a@));
            }
            r
        },
        VrfAction::AddMember { id, members } => {
            let mut r = u32_to_le_bytes(3);
            let mut e = u32_to_le_bytes(*id);
            r.append(&mut e);
            let mut m = encode_u32_list(members);
            r.append(&mut m);
            proof {
                assert(r@ =~= enc_action(a@));
            }
            r
        },
        VrfAction::RemoveMember { id, members } => {
            let mut r = u32_to_le_bytes(4);
            let mut e = u32_to_le_bytes(*id);
            r.append(&mut e);
            let mut m = encode_u32_list(members);
            r.append(&mut m);
            proof {
                assert(r@ =~= enc_action(a@));
            }
            r
        },
    }
}

/// Encode one packet into its canonical wire bytes; this cannot fail.
pub fn encode_packet(p: &Packet) -> (r: Vec<u8>)
    ensures
        r@ == enc_packet(p@),
{
    match p {
        Packet::Ping(_) => u32_to_le_bytes(0),
        Packet::VrfAction(a) => {
            let mut r = u32_to_le_bytes(1);
            let mut e = encode_action(a);
            r.append(&mut e);
            proof {
                assert(r@ =~= enc_packet(p@));
            }
            r
        },
        Packet::Data(d) => {
            let mut r = u32_to_le_bytes(2);
            let mut e = u32_to_le_bytes(d.vrf_id);
            r.append(&mut e);
            let mut n = u64_to_le_bytes(d.data.len() as u64);
            r.append(&mut n);
            let mut bytes = crate::types::clone_u8_vec(&d.data);
            r.append(&mut bytes);
            proof {
                assert(r@ =~= enc_packet(p@));
            }
            r
        },
    }
}

// ---------------------------------------------------------------------------
// Executable decoding of the compound values
// ---------------------------------------------------------------------------

fn read_u8(b: &[u8], off: usize) -> (r: Option<(u8, usize)>)
    requires
        off <= b@.len(),
    ensures
        match r {
            None => off == b@.len(),
            Some((x, off2)) => off < b@.len() && x == b@[off as int] && off2 == off + 1,
        },
{
    if off < b.len() {
        let x = *slice_index_get(b, off);
        Some((x, off + 1))
    } else {
        None
    }
}

/// Read a VRF.
pub fn read_vrf(b: &[u8], off: usize) -> (r: Option<(Vrf, usize)>)
    requires
        off <= b@.len(),
    ensures
        match r {
            None => dec_vrf(b@.skip(off as int)) is None,
            Some((v, off2)) => off <= off2 <= b@.len() && dec_vrf(b@.skip(off as int))
                == Some((v@, off2 - off)),
        },
{
    match read_u32(b, off) {
        None => None,
        Some((id, o1)) => {
            proof {
                assert(b@.skip(off as int).skip(o1 - off) =~= b@.skip(o1 as int));
            }
            match read_string(b, o1) {
                None => None,
                Some((name, o2)) => {
                    proof {
                        assert(b@.skip(off as int).skip(o2 - off) =~= b@.skip(o2 as int));
                    }
                    match read_u32_list(b, o2) {
                        None => None,
                        Some((members, o3)) => Some((Vrf { id, name, members }, o3)),
                    }
                },
            }
        },
    }
}

pub fn read_vrf_list(b: &[u8], off: usize) -> (r: Option<(Vec<Vrf>, usize)>)
    requires
        off <= b@.len(),
    ensures
        match r {
            None => dec_vrf_list(b@.skip(off as int)) is None,
            Some((vs, off2)) => off <= off2 <= b@.len() && dec_vrf_list(b@.skip(off as int))
                == Some((vs.deep_view(), off2 - off)),
        },
{
    match read_u64(b, off) {
        None => None,
        Some((n, off1)) => {
            proof {
                assert(b@.skip(off as int).skip(off1 - off) =~= b@.skip(off1 as int));
            }
            let mut acc: Vec<Vrf> = Vec::new();
            let mut cur: usize = off1;
            let mut i: u64 = 0;
            proof {
                assert(acc.deep_view() =~= Seq::<VrfV>::empty());
            }
            loop
                invariant
                    off <= off1 <= cur <= b@.len(),
                    i <= n,
                    acc@.len() == i,
                    dec_u64(b@.skip(off as int)) == Some((n, off1 - off)),
                    b@.skip(off as int).skip(off1 - off) =~= b@.skip(off1 as int),
                    (match dec_vrf_elems(b@.skip(cur as int), (n - i) as nat) {
                        None => dec_vrf_elems(b@.skip(off1 as int), n as nat) is None,
                        Some((tv, tc)) => dec_vrf_elems(b@.skip(off1 as int), n as nat)
                            == Some((acc.deep_view() + tv, cur - off1 + tc)),
                    }),
                ensures
                    i == n,
                    off <= off1 <= cur <= b@.len(),
                    acc@.len() == i,
                    (match dec_vrf_elems(b@.skip(cur as int), (n - i) as nat) {
                        None => dec_vrf_elems(b@.skip(off1 as int), n as nat) is None,
                        Some((tv, tc)) => dec_vrf_elems(b@.skip(off1 as int), n as nat)
                            == Some((acc.deep_view() + tv, cur - off1 + tc)),
                    }),
                decreases n - i,
            {
                if i == n {
                    break;
                }
                match read_vrf(b, cur) {
                    None => {
                        return None;
                    },
                    Some((v, cur2)) => {
                        proof {
                            assert(b@.skip(cur as int).skip(cur2 - cur) =~= b@.skip(
                                cur2 as int,
                            ));
                            assert(acc.deep_view().push(v@) =~= acc@.push(v).map(
                                |j: int, e: Vrf| e.deep_view(),
                            ));
                        }
                        let ghost old_deep = acc.deep_view();
                        acc.push(v);
                        proof {
                            assert(acc.deep_view() =~= old_deep.push(v@));
                        }
                        cur = cur2;
                        i = i + 1;
                        proof {
                            assert(forall|tv: Seq<VrfV>|
                                old_deep + (seq![v@] + tv) =~= (old_deep.push(v@)) + tv);
                        }
                    },
                }
            }
            proof {
                assert(dec_vrf_elems(b@.skip(cur as int), 0) == Some((
                    Seq::<VrfV>::empty(),
                    0int,
                )));
                assert(acc.deep_view() + Seq::<VrfV>::empty() =~= acc.deep_view());
            }
            Some((acc, cur))
        },
    }
}

fn read_opt_vrf_list(b: &[u8], off: usize) -> (r: Option<(Option<Vec<Vrf>>, usize)>)
    requires
        off <= b@.len(),
    ensures
        match r {
            None => dec_opt_vrf_list(b@.skip(off as int)) is None,
            Some((o, off2)) => off <= off2 <= b@.len() && (match o {
                None => dec_opt_vrf_list(b@.skip(off as int)) == Some((
                    None::<Seq<VrfV>>,
                    off2 - off,
                )),
                Some(vs) => dec_opt_vrf_list(b@.skip(off as int)) == Some((
                    Some(vs.deep_view()),
                    off2 - off,
                )),
            }),
        },
{
    match read_u8(b, off) {
        None => None,
        Some((tag, off1)) => {
            if tag == 0 {
                Some((None, off1))
            } else if tag == 1 {
                proof {
                    assert(b@.skip(off as int).skip(1) =~= b@.skip(off1 as int));
                }
                match read_vrf_list(b, off1) {
                    None => None,
                    Some((vs, off2)) => Some((Some(vs), off2)),
                }
            } else {
                None
            }
        },
    }
}

/// Read a control-plane action.
pub fn read_action(b: &[u8], off: usize) -> (r: Option<(VrfAction, usize)>)
    requires
        off <= b@.len(),
    ensures
        match r {
            None => dec_action(b@.skip(off as int)) is None,
            Some((a, off2)) => off <= off2 <= b@.len() && dec_action(b@.skip(off as int))
                == Some((a@, off2 - off)),
        },
{
    match read_u32(b, off) {
        None => None,
        Some((tag, o1)) => {
            proof {
                assert(b@.skip(off as int).skip(o1 - off) =~= b@.skip(o1 as int));
            }
            if tag == 0 {
                match read_opt_vrf_list(b, o1) {
                    None => None,
                    Some((o, o2)) => Some((VrfAction::List(o), o2)),
                }
            } else if tag == 1 {
                match read_vrf(b, o1) {
                    None => None,
                    Some((v, o2)) => Some((VrfAction::Create(v), o2)),
                }
            } else if tag == 2 {
                match read_u32(b, o1) {
                    None => None,
                    Some((id, o2)) => Some((VrfAction::Delete { id }, o2)),
                }
            } else if tag == 3 {
                match read_u32(b, o1) {
                    None => None,
                    Some((id, o2)) => {
                        proof {
                            assert(b@.skip(off as int).skip(o2 - off) =~= b@.skip(
                                o2 as int,
                            ));
                        }
                        match read_u32_list(b, o2) {
                            None => None,
                            Some((members, o3)) => Some(
                                (VrfAction::AddMember { id, members }, o3),
                            ),
                        }
                    },
                }
            } else if tag == 4 {
                match read_u32(b, o1) {
                    None => None,
                    Some((id, o2)) => {
                        proof {
                            assert(b@.skip(off as int).skip(o2 - off) =~= b@.skip(
                                o2 as int,
                            ));
                        }
                        match read_u32_list(b, o2) {
                            None => None,
                            Some((members, o3)) => Some(
                                (VrfAction::RemoveMember { id, members }, o3),
                            ),
                        }
                    },
                }
            } else {
                None
            }
        },
    }
}

/// Decode one packet from a buffer; trailing bytes are ignored, since one
/// transport read may deliver more than the packet itself.
pub fn decode_packet(b: &[u8]) -> (r: Option<Packet>)
    ensures
        match r {
            None => dec_packet(b@) is None,
            Some(p) => dec_packet(b@) matches Some((pv, c)) && p@ == pv,
        },
{
    proof {
        assert(b@.skip(0) =~= b@);
    }
    match read_u32(b, 0) {
        None => None,
        Some((tag, o1)) => {
            proof {
                assert(b@.skip(0).skip(o1 as int) =~= b@.skip(o1 as int));
            }
            if tag == 0 {
                Some(Packet::Ping(Ping))
            } else if tag == 1 {
                match read_action(b, o1) {
                    None => None,
                    Some((a, _o2)) => Some(Packet::VrfAction(a)),
                }
            } else if tag == 2 {
                match read_u32(b, o1) {
                    None => None,
                    Some((id, o2)) => {
                        proof {
                            assert(b@.skip(0).skip(o2 as int) =~= b@.skip(o2 as int));
                        }
                        match read_bytes(b, o2) {
                            None => None,
                            Some((data, _o3)) => Some(
                                Packet::Data(Data { vrf_id: id, data }),
                            ),
                        }
                    },
                }
            } else {
                None
            }
        },
    }
}

/// Decode a switch id from a handshake buffer; trailing bytes are ignored.
pub fn decode_switch_id(b: &[u8]) -> (r: Option<SwitchId>)
    ensures
        match r {
            None => dec_u32(b@) is None,
            Some(x) => dec_u32(b@) matches Some((xv, c)) && x == xv,
        },
{
    proof {
        assert(b@.skip(0) =~= b@);
    }
    match read_u32(b, 0) {
        None => None,
        Some((x, _)) => Some(x),
    }
}

} // verus!
