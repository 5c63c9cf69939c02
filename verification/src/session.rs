//! The connection layer's decisions.
//!
//! The surrounding process owns the sockets, timers and queues; this
//! module owns what happens next.  An outbound session walks
//! `Connecting → Established` and back, registering its peer while
//! established; an inbound session dispatches each packet: echo a ping,
//! deliver a frame to the TAP worker, apply a control action — and
//! rebroadcast it first when the operator sent it.

use vstd::prelude::*;

use crate::control::{
    list_reply, process_vrf_action, spec_apply, spec_step, state_wf, ActionEffects, SwitchState,
    TapOp, TapOpV,
};
use crate::types::{
    is_mutation, Packet, PacketV, Ping, SwitchId, VrfId, CONFIGURATION_SWITCH_ID,
};

verus! {

/// How long a failed connect waits before the next attempt.
pub const CONNECTION_RETRY_INTERVAL_MS: u64 = 1000;

/// How often an established outbound session enqueues a heartbeat.
pub const PING_INTERVAL_MS: u64 = 1000;

/// How long a session lives without a heartbeat.
pub const PING_TIMEOUT_MS: u64 = 10000;

/// Where an outbound session stands.
pub enum SessionState {
    /// Not connected; the reconnect loop will try again.
    Connecting,
    /// Identity exchanged; the peer is registered until the session ends.
    Established { peer: SwitchId, deadline: u64 },
}

/// What the process observed on an outbound session.
pub enum SessionEvent {
    /// The TCP connect failed.
    ConnectFailed,
    /// The identity exchange failed or the peer sent nothing.
    HandshakeFailed,
    /// The identity exchange finished; this is the peer's id.
    HandshakeOk(SwitchId),
    /// A heartbeat arrived from the peer.
    PingReceived,
    /// The ping deadline passed with no heartbeat.
    TimedOut,
    /// The peer closed the connection, or a read or write failed.
    Closed,
}

/// What the process must do after a step.
pub enum SessionAction {
    /// Insert the peer into the registry.
    Register(SwitchId),
    /// Remove the peer from the registry.
    Unregister(SwitchId),
    /// Sleep this long before reconnecting.
    Wait(u64),
}

/// A ping deadline this far from `now`, clamped at the end of time.
pub open spec fn spec_deadline(now: u64) -> u64 {
    if now > u64::MAX - PING_TIMEOUT_MS {
        u64::MAX
    } else {
        (now + PING_TIMEOUT_MS) as u64
    }
}

/// The outbound session's transition function.
///
/// Leaving `Established` — for any reason — unregisters the peer and goes
/// back to `Connecting`; only a completed handshake with an ordinary peer
/// id registers one, and the reserved operator id is refused.
pub open spec fn spec_client_step(state: SessionState, event: SessionEvent, now: u64) -> (
    SessionState,
    Seq<SessionAction>,
) {
    match state {
        SessionState::Connecting => match event {
            SessionEvent::ConnectFailed => (
                SessionState::Connecting,
                seq![SessionAction::Wait(CONNECTION_RETRY_INTERVAL_MS)],
            ),
            SessionEvent::HandshakeFailed => (SessionState::Connecting, Seq::empty()),
            SessionEvent::HandshakeOk(peer) => if peer == CONFIGURATION_SWITCH_ID {
                // The reserved operator id never enters the registry; a
                // peer claiming it is treated like a failed handshake.
                (SessionState::Connecting, Seq::empty())
            } else {
                (
                    SessionState::Established { peer, deadline: spec_deadline(now) },
                    seq![SessionAction::Register(peer)],
                )
            },
            _ => (SessionState::Connecting, Seq::empty()),
        },
        SessionState::Established { peer, deadline } => match event {
            SessionEvent::PingReceived => (
                SessionState::Established { peer, deadline: spec_deadline(now) },
                Seq::empty(),
            ),
            SessionEvent::TimedOut => (
                SessionState::Connecting,
                seq![SessionAction::Unregister(peer)],
            ),
            SessionEvent::Closed => (
                SessionState::Connecting,
                seq![SessionAction::Unregister(peer)],
            ),
            _ => (SessionState::Established { peer, deadline }, Seq::empty()),
        },
    }
}

/// Run one step of the outbound session.
pub fn client_step(state: SessionState, event: SessionEvent, now: u64) -> (r: (
    SessionState,
    Vec<SessionAction>,
))
    ensures
        r.0 == spec_client_step(state, event, now).0,
        r.1@ == spec_client_step(state, event, now).1,
{
    let deadline = if now > u64::MAX - PING_TIMEOUT_MS {
        u64::MAX
    } else {
        now + PING_TIMEOUT_MS
    };
    match state {
        SessionState::Connecting => match event {
            SessionEvent::ConnectFailed => {
                let mut acts: Vec<SessionAction> = Vec::new();
                acts.push(SessionAction::Wait(CONNECTION_RETRY_INTERVAL_MS));
                proof {
                    assert(acts@ =~= seq![SessionAction::Wait(CONNECTION_RETRY_INTERVAL_MS)]);
                }
                (SessionState::Connecting, acts)
            },
            SessionEvent::HandshakeOk(peer) => {
                if peer == CONFIGURATION_SWITCH_ID {
                    let acts: Vec<SessionAction> = Vec::new();
                    proof {
                        assert(acts@ =~= Seq::<SessionAction>::empty());
                    }
                    (SessionState::Connecting, acts)
                } else {
                    let mut acts: Vec<SessionAction> = Vec::new();
                    acts.push(SessionAction::Register(peer));
                    proof {
                        assert(acts@ =~= seq![SessionAction::Register(peer)]);
                    }
                    (SessionState::Established { peer, deadline }, acts)
                }
            },
            _ => {
                let acts: Vec<SessionAction> = Vec::new();
                proof {
                    assert(acts@ =~= Seq::<SessionAction>::empty());
                }
                (SessionState::Connecting, acts)
            },
        },
        SessionState::Established { peer, deadline: old_deadline } => match event {
            SessionEvent::PingReceived => {
                let acts: Vec<SessionAction> = Vec::new();
                proof {
                    assert(acts@ =~= Seq::<SessionAction>::empty());
                }
                (SessionState::Established { peer, deadline }, acts)
            },
            SessionEvent::TimedOut | SessionEvent::Closed => {
                let mut acts: Vec<SessionAction> = Vec::new();
                acts.push(SessionAction::Unregister(peer));
                proof {
                    assert(acts@ =~= seq![SessionAction::Unregister(peer)]);
                }
                (SessionState::Connecting, acts)
            },
            _ => {
                let acts: Vec<SessionAction> = Vec::new();
                proof {
                    assert(acts@ =~= Seq::<SessionAction>::empty());
                }
                (SessionState::Established { peer, deadline: old_deadline }, acts)
            },
        },
    }
}

/// An established session that loses its socket, or its heartbeat, always
/// unregisters its peer and goes back to reconnecting.
pub proof fn lemma_session_recovers(peer: SwitchId, deadline: u64, event: SessionEvent, now: u64)
    requires
        event is TimedOut || event is Closed,
    ensures
        spec_client_step(SessionState::Established { peer, deadline }, event, now).0
            is Connecting,
        spec_client_step(SessionState::Established { peer, deadline }, event, now).1
            == seq![SessionAction::Unregister(peer)],
{
}

/// The reserved operator id never enters the peer registry: no step of
/// the outbound session ever asks to register it, and no established
/// session carries it as its peer.
pub proof fn lemma_reserved_id_never_registered(
    state: SessionState,
    event: SessionEvent,
    now: u64,
)
    requires
        state matches SessionState::Established { peer, .. } ==> peer
            != CONFIGURATION_SWITCH_ID,
    ensures
        forall|i: int|
            0 <= i < spec_client_step(state, event, now).1.len()
                ==> #[trigger] spec_client_step(state, event, now).1[i]
                != SessionAction::Register(CONFIGURATION_SWITCH_ID),
        spec_client_step(state, event, now).0 matches SessionState::Established { peer, .. }
            ==> peer != CONFIGURATION_SWITCH_ID,
{
}

// ---------------------------------------------------------------------------
// The inbound session's dispatch
// ---------------------------------------------------------------------------

/// A frame to hand to the TAP worker of a VRF.
pub struct Delivery {
    pub vrf_id: VrfId,
    pub origin: SwitchId,
    pub data: Vec<u8>,
}

/// Everything one inbound packet asks the process to do.
pub struct ServerEffects {
    /// Send this packet to each of `broadcast_targets` — before the local
    /// mutation is allowed to become observable.
    pub broadcast: Option<Packet>,
    /// Exactly the registered peers, when there is a broadcast; empty
    /// otherwise.
    pub broadcast_targets: Vec<SwitchId>,
    /// Send these packets back on the same session, in order.
    pub replies: Vec<Packet>,
    /// Hand this frame to the TAP worker of its VRF.
    pub deliver: Option<Delivery>,
    /// Create or destroy TAP workers, in order.
    pub tap_ops: Vec<TapOp>,
}

/// Whether an inbound control action must be rebroadcast: only mutations,
/// and only from the operator's control connection.
pub fn should_broadcast(client_id: SwitchId, action_is_mutation: bool) -> (r: bool)
    ensures
        r == (client_id == CONFIGURATION_SWITCH_ID && action_is_mutation),
{
    client_id == CONFIGURATION_SWITCH_ID && action_is_mutation
}

/// Dispatch one packet of an inbound session.
///
/// A ping is echoed; a frame goes to the VRF's TAP worker when one runs;
/// a control action is applied as [`spec_step`] says — and when it is a
/// mutation arriving from the operator (handshake id zero), it is
/// rebroadcast to every entry of the peer registry, whose ids the caller
/// passes in, before the local mutation is observable.
pub fn server_handle_packet(
    state: &mut SwitchState,
    peers: &Vec<SwitchId>,
    client_id: SwitchId,
    packet: Packet,
) -> (effects: ServerEffects)
    requires
        state_wf(old(state)),
    ensures
        state_wf(final(state)),
        final(state).local_id == old(state).local_id,
        (match effects.broadcast {
            Some(_) => effects.broadcast_targets@ == peers@,
            None => effects.broadcast_targets@.len() == 0,
        }),
        (match packet@ {
            PacketV::VrfAction(a) => {
                &&& final(state)@ == spec_apply(old(state).local_id, old(state)@, a)
                &&& effects.tap_ops.deep_view() == spec_step(
                    old(state).local_id,
                    old(state)@,
                    a,
                ).1
                &&& (a is List ==> effects.replies.deep_view() == list_reply(
                    old(state)@.vrfs,
                ))
                &&& (!(a is List) ==> effects.replies@.len() == 0)
                &&& effects.deliver is None
                &&& (match effects.broadcast {
                    Some(p) => p@ == packet@ && client_id == CONFIGURATION_SWITCH_ID
                        && is_mutation(a),
                    None => !(client_id == CONFIGURATION_SWITCH_ID && is_mutation(a)),
                })
            },
            PacketV::Ping => {
                &&& final(state)@ == old(state)@
                &&& effects.replies.deep_view() =~= seq![PacketV::Ping]
                &&& effects.deliver is None
                &&& effects.broadcast is None
                &&& effects.tap_ops@.len() == 0
            },
            PacketV::Data(d) => {
                &&& final(state)@ == old(state)@
                &&& effects.replies@.len() == 0
                &&& effects.broadcast is None
                &&& effects.tap_ops@.len() == 0
                &&& (match effects.deliver {
                    Some(del) => old(state)@.taps.contains(d.vrf_id) && del.vrf_id == d.vrf_id
                        && del.origin == client_id && del.data@ == d.data,
                    None => !old(state)@.taps.contains(d.vrf_id),
                })
            },
        }),
{
    match packet {
        Packet::Ping(_) => {
            let mut replies: Vec<Packet> = Vec::new();
            replies.push(Packet::Ping(Ping));
            proof {
                assert(replies.deep_view() =~= seq![PacketV::Ping]);
            }
            ServerEffects {
                broadcast: None,
                broadcast_targets: Vec::new(),
                replies,
                deliver: None,
                tap_ops: Vec::new(),
            }
        },
        Packet::Data(d) => {
            let has_tap = crate::types::members_contain(&state.taps, d.vrf_id);
            let deliver = if has_tap {
                Some(Delivery { vrf_id: d.vrf_id, origin: client_id, data: d.data })
            } else {
                None
            };
            ServerEffects {
                broadcast: None,
                broadcast_targets: Vec::new(),
                replies: Vec::new(),
                deliver,
                tap_ops: Vec::new(),
            }
        },
        Packet::VrfAction(action) => {
            let mutating = match &action {
                crate::types::VrfAction::List(_) => false,
                _ => true,
            };
            proof {
                assert(mutating == is_mutation(action@));
            }
            let (broadcast, broadcast_targets) = if should_broadcast(client_id, mutating) {
                (
                    Some(Packet::VrfAction(action.duplicate())),
                    crate::types::clone_u32_vec(peers),
                )
            } else {
                (None, Vec::new())
            };
            let effects = process_vrf_action(state, action);
            ServerEffects {
                broadcast,
                broadcast_targets,
                replies: effects.replies,
                deliver: None,
                tap_ops: effects.tap_ops,
            }
        },
    }
}

} // verus!
