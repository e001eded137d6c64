//! What the daemon does on the frames of phones.
//!
//! A phone's first frame must be a hello with the shared key. Later frames change the daemon's
//! state and ask for [`Effect`]s, which whoever owns the sockets carries out in order.

use vstd::prelude::*;

use crate::daemon::{CardGuard, DaemonState, InboundHandler};
#[allow(unused_imports)]
use crate::daemon::Handling;
use crate::hub::Hub;
#[allow(unused_imports)]
use crate::hub::{settled_models, with_all_dropped, SettledModel};
use crate::jobs::runner::{StepOutcome, CALL_ENDED_SUMMARY};
use crate::protocol::{Action, CallState, Direction, PhoneToServer};
use crate::registry::{CallInfo, DeviceInfo, MmiResult, SmsRecord, VoicemailResult};
#[allow(unused_imports)]
use crate::registry::{is_stale, without_stale};
#[allow(unused_imports)]
use crate::table::in_order;
use crate::text;
#[allow(unused_imports)]
use crate::text::{opt_view, views};

verus! {

/// Phones send a heartbeat every 30 s; one that was silent for this long is gone.
pub const STALE_AFTER_MS: i64 = 90_000;

/// Seconds between two looks for silent phones.
pub const REAP_INTERVAL_SECS: u64 = 15;

/// Whether an app was launched anew: it named another launch before.
pub open spec fn relaunched(new: Seq<char>, prior: Option<Seq<char>>) -> bool {
    prior is Some && prior->0 != new
}

/// Whether an app was launched anew. A first sighting, or the same launch, is a plain reconnect.
pub fn is_relaunch(new: &str, prior: Option<&str>) -> (r: bool)
    ensures
        r == relaunched(
            new@,
            match prior {
                Some(p) => Some(p@),
                None => None,
            },
        ),
{
    match prior {
        Some(p) => !text::same(p, new),
        None => false,
    }
}

/// What a phone's hello says.
#[derive(Debug)]
pub struct Greeting {
    pub device_id: String,
    pub name: String,
    pub instance_id: String,
}

/// Why a phone is turned away.
#[derive(Debug)]
pub enum HelloRefusal {
    /// Its key is not the shared one. The socket is to be closed with this reason.
    BadKey(String),
    /// Its first frame is not a hello.
    NotHello(PhoneToServer),
}

/// Whether `r` is what a first frame comes to under a shared key.
pub open spec fn greets(
    first: PhoneToServer,
    shared_key: Seq<char>,
    r: Result<Greeting, HelloRefusal>,
) -> bool {
    match first {
        PhoneToServer::Hello { device_id, name, key, instance_id, .. } => if key@ == shared_key {
            r == Ok::<Greeting, HelloRefusal>(Greeting { device_id, name, instance_id })
        } else {
            &&& r matches Err(HelloRefusal::BadKey(e))
            &&& e@ == "rejected device `"@ + device_id@ + "`: bad shared key"@
        },
        _ => r == Err::<Greeting, HelloRefusal>(HelloRefusal::NotHello(first)),
    }
}

/// Checks a phone's first frame.
pub fn check_hello(first: PhoneToServer, shared_key: &str) -> (r: Result<Greeting, HelloRefusal>)
    ensures
        greets(first, shared_key@, r),
{
    match first {
        PhoneToServer::Hello { device_id, name, key, caps, app_version, instance_id } => {
            if text::same(&key, shared_key) {
                Ok(Greeting { device_id, name, instance_id })
            } else {
                let mut e = "rejected device `".to_owned();
                e.append(&device_id);
                e.append("`: bad shared key");
                Err(HelloRefusal::BadKey(e))
            }
        },
        other => Err(HelloRefusal::NotHello(other)),
    }
}

/// A registered connection.
#[derive(Debug)]
pub struct Connected {
    /// Tells this connection from others of the same device.
    pub gen: u64,
    /// What to tell serving clients, where the app's relaunch stops the running job. The call
    /// that the job left behind is then to be hung up.
    pub aborted: Option<String>,
}

impl DaemonState {
    /// The last launch seen of a device's app.
    pub open spec fn last_launch(self, device_id: Seq<char>) -> Option<Seq<char>> {
        if self.instances@.dom().contains(device_id) {
            Some(self.instances@[device_id]@)
        } else {
            None
        }
    }

    /// The call that a device has.
    pub open spec fn call_of(self, device_id: Seq<char>) -> Option<CallInfo> {
        if self.registry@.dom().contains(device_id) {
            self.registry@[device_id].current_call
        } else {
            None
        }
    }
}

/// Whether the daemon's state and the hub have become `next` and `next_hub` by a phone's connection:
/// the phone is registered and seen, its launch is noted, its call is kept but for a new launch,
/// and a new launch stops the running job.
pub open spec fn connects(
    s: DaemonState,
    hub: Hub,
    hello: Greeting,
    addr: Seq<char>,
    now_ms: i64,
    next: DaemonState,
    next_hub: Hub,
    r: Connected,
) -> bool {
    let anew = relaunched(hello.instance_id@, s.last_launch(hello.device_id@));
    let dev = next.registry@[hello.device_id@];
    &&& r.gen == hub.conn_gen
    &&& hub.registers(hello.device_id@, next_hub)
    &&& r.aborted is Some <==> anew && s.card_busy
    &&& r.aborted matches Some(e) ==> e@ == hello.device_id@ + " app relaunched → job aborted"@
    &&& next.job_abort == (s.job_abort || (anew && s.card_busy))
    &&& next.instances@ == s.instances@.insert(
        hello.device_id@,
        next.instances@[hello.device_id@],
    )
    &&& next.last_launch(hello.device_id@) == Some(hello.instance_id@)
    &&& next.registry@ == s.registry@.insert(hello.device_id@, dev)
    &&& dev.id@ == hello.device_id@
    &&& dev.name@ == hello.name@
    &&& opt_view(dev.addr) == Some(addr)
    &&& dev.last_seen_ms == now_ms
    &&& dev.current_call == (if anew {
        None
    } else {
        s.call_of(hello.device_id@)
    })
    &&& next == (DaemonState {
        registry: next.registry,
        instances: next.instances,
        job_abort: next.job_abort,
        ..s
    })
}

/// Registers a phone's connection. A plain reconnect keeps the phone's call, so that the running
/// job does not take it for ended; an app that was launched anew has lost its call, and the running
/// job with it.
pub fn connect(
    state: &mut DaemonState,
    hub: &mut Hub,
    hello: Greeting,
    addr: &str,
    now_ms: i64,
) -> (r: Connected)
    ensures
        connects(*old(state), *old(hub), hello, addr@, now_ms, *final(state), *final(hub), r),
{
    let anew = match state.instances.get(&hello.device_id) {
        Some(p) => is_relaunch(&hello.instance_id, Some(p.as_str())),
        None => is_relaunch(&hello.instance_id, None),
    };
    let ghost m = state.instances@;
    state.instances.insert(hello.device_id.clone(), hello.instance_id.clone());
    proof {
        assert(state.instances@ =~= m.insert(
            hello.device_id@,
            state.instances@[hello.device_id@],
        ));
    }
    let aborting = anew && state.card_busy;
    let aborted = if aborting {
        state.job_abort = true;
        let mut e = hello.device_id.clone();
        e.append(" app relaunched → job aborted");
        Some(e)
    } else {
        None
    };
    let prior_call = if anew {
        None
    } else {
        match state.registry.get(&hello.device_id) {
            Some(d) => match &d.current_call {
                Some(c) => Some(c.clone()),
                None => None,
            },
            None => None,
        }
    };
    let gen: u64 = hub.register(&hello.device_id);
    let ghost reg = state.registry@;
    state.registry.upsert(
        DeviceInfo {
            id: hello.device_id.clone(),
            name: hello.name.clone(),
            addr: Some(addr.to_owned()),
            last_seen_ms: now_ms,
            current_call: prior_call,
        },
    );
    Connected { gen, aborted }
}

/// Ends a connection. The device leaves the registry, unless a newer connection has taken over.
/// Tells whether it left.
pub fn disconnect(state: &mut DaemonState, hub: &mut Hub, device_id: &str, gen: u64) -> (r: bool)
    ensures
        r == old(hub).is_current(device_id@, gen),
        !r ==> *final(state) == *old(state) && *final(hub) == *old(hub),
        r ==> {
            &&& final(state).registry@ == old(state).registry@.remove(device_id@)
            &&& *final(state) == (DaemonState { registry: final(state).registry, ..*old(state) })
            &&& old(hub).unregisters(device_id@, *final(hub))
        },
{
    if hub.unregister(device_id, gen) {
        let _ = state.registry.remove(device_id);
        true
    } else {
        false
    }
}

/// Something to be done for a frame.
#[derive(Debug)]
pub enum Effect {
    /// Answer the heartbeat, so that the app knows that the daemon is alive.
    AckHeartbeat,
    /// Remove the device's call marker.
    RemoveMarker,
    /// Write the device's call marker for this call.
    WriteMarker(String),
    /// Send the phone a command.
    Fire(Action),
    /// Tell serving clients.
    Emit(String),
    /// Act on a call that rings: see [`trigger_autoanswer`].
    AutoAnswer { call_id: String, number: Option<String>, handler: InboundHandler },
}

/// An [`Effect`] with its texts as characters.
pub enum EffectModel {
    AckHeartbeat,
    RemoveMarker,
    WriteMarker(Seq<char>),
    /// Hang this call up.
    FireHangup(Seq<char>),
    FireOther(Action),
    Emit(Seq<char>),
    AutoAnswer { call_id: Seq<char>, number: Option<Seq<char>>, handling: Handling },
}

impl View for Effect {
    type V = EffectModel;

    open spec fn view(&self) -> EffectModel {
        match *self {
            Effect::AckHeartbeat => EffectModel::AckHeartbeat,
            Effect::RemoveMarker => EffectModel::RemoveMarker,
            Effect::WriteMarker(c) => EffectModel::WriteMarker(c@),
            Effect::Fire(Action::Hangup { call_id: Some(c) }) => EffectModel::FireHangup(c@),
            Effect::Fire(a) => EffectModel::FireOther(a),
            Effect::Emit(e) => EffectModel::Emit(e@),
            Effect::AutoAnswer { call_id, number, handler } => EffectModel::AutoAnswer {
                call_id: call_id@,
                number: opt_view(number),
                handling: handler@,
            },
        }
    }
}

/// The effects of a list, each as a model.
pub open spec fn effect_models(v: Seq<Effect>) -> Seq<EffectModel> {
    v.map_values(|e: Effect| e@)
}

/// What is done about call markers when a call changes state.
///
/// A marker of an earlier run that names the call that is now active, while no job drives it,
/// names a call that outlived a crash: it is hung up. Any other marker of an earlier run is out of
/// date. A call that a job drives gets a marker; when it ends, the marker goes.
pub open spec fn marker_effects(
    device_id: Seq<char>,
    call_id: Seq<char>,
    cs: CallState,
    orphan: Option<Seq<char>>,
    card_busy: bool,
) -> Seq<EffectModel> {
    match cs {
        CallState::Active => {
            let first = match orphan {
                Some(m) => if m == call_id && !card_busy {
                    seq![
                        EffectModel::RemoveMarker,
                        EffectModel::FireHangup(call_id),
                        EffectModel::Emit(
                            device_id + " → hung up an orphaned call (daemon had crashed)"@,
                        ),
                    ]
                } else {
                    seq![EffectModel::RemoveMarker]
                },
                None => Seq::empty(),
            };
            if card_busy {
                first.push(EffectModel::WriteMarker(call_id))
            } else {
                first
            }
        },
        CallState::Ended => seq![EffectModel::RemoveMarker],
        CallState::Ringing => Seq::empty(),
    }
}

/// What is done about answering when a call changes state: an inbound call that rings, from a
/// number that is configured or overridden, is acted on.
pub open spec fn answer_effects(
    state: DaemonState,
    call_id: Seq<char>,
    cs: CallState,
    number: Option<Seq<char>>,
    direction: Direction,
) -> Seq<EffectModel> {
    if cs == CallState::Ringing && direction == Direction::In && number is Some
        && state.handling(number->0) is Some {
        seq![
            EffectModel::AutoAnswer { call_id, number, handling: state.handling(number->0)->0 },
        ]
    } else {
        Seq::empty()
    }
}

/// The effects of a frame.
pub open spec fn frame_effects(
    state: DaemonState,
    device_id: Seq<char>,
    msg: PhoneToServer,
) -> Seq<EffectModel> {
    match msg {
        PhoneToServer::Heartbeat { .. } => seq![EffectModel::AckHeartbeat],
        PhoneToServer::CallState { call_id, state: cs, number, direction } => marker_effects(
            device_id,
            call_id@,
            cs,
            if state.pending_orphans@.dom().contains(device_id) {
                Some(state.pending_orphans@[device_id]@)
            } else {
                None
            },
            state.card_busy,
        ) + answer_effects(state, call_id@, cs, opt_view(number), direction),
        _ => Seq::empty(),
    }
}

/// Whether a device's record has become `next` by a frame.
pub open spec fn device_after(d: DeviceInfo, msg: PhoneToServer, now_ms: i64, next: DeviceInfo) -> bool {
    match msg {
        PhoneToServer::Heartbeat { .. } => next == (DeviceInfo { last_seen_ms: now_ms, ..d }),
        PhoneToServer::CallState { call_id, state: cs, number, direction } => {
            &&& next == (DeviceInfo {
                last_seen_ms: now_ms,
                current_call: next.current_call,
                ..d
            })
            &&& match next.current_call {
                None => cs == CallState::Ended,
                Some(c) => {
                    &&& cs != CallState::Ended
                    &&& c.call_id@ == call_id@
                    &&& opt_view(c.number) == opt_view(number)
                    &&& c.state == cs
                    &&& c.direction == direction
                },
            }
        },
        _ => next == d,
    }
}

/// Whether the daemon's state has become `next` by a frame.
pub open spec fn state_after(
    s: DaemonState,
    device_id: Seq<char>,
    msg: PhoneToServer,
    now_ms: i64,
    next: DaemonState,
) -> bool {
    &&& next.registry@.dom() == s.registry@.dom()
    &&& s.registry@.dom().contains(device_id) ==> device_after(
        s.registry@[device_id],
        msg,
        now_ms,
        next.registry@[device_id],
    )
    &&& forall|k: Seq<char>|
        k != device_id && s.registry@.dom().contains(k) ==> #[trigger] next.registry@[k]
            == s.registry@[k]
    &&& next.pending_orphans@ == (if msg is CallState && msg->CallState_state
        != CallState::Ringing {
        s.pending_orphans@.remove(device_id)
    } else {
        s.pending_orphans@
    })
    &&& match msg {
        PhoneToServer::Sms { direction, from, to, body, ts } => {
            let was = if s.inbox@.dom().contains(device_id) {
                s.inbox@[device_id]@
            } else {
                Seq::empty()
            };
            &&& next.inbox@[device_id]@ == crate::daemon::with_recent(
                was,
                SmsRecord { direction, from, to, body, ts },
            )
            &&& next.inbox@.dom() == s.inbox@.dom().insert(device_id)
            &&& forall|k: Seq<char>|
                k != device_id && s.inbox@.dom().contains(k) ==> #[trigger] next.inbox@[k]
                    == s.inbox@[k]
        },
        _ => next.inbox == s.inbox,
    }
    &&& match msg {
        PhoneToServer::Calls { entries } => next.call_log@ == s.call_log@.insert(
            device_id,
            entries,
        ),
        _ => next.call_log == s.call_log,
    }
    &&& match msg {
        PhoneToServer::Sims { entries } => next.sims@ == s.sims@.insert(device_id, entries),
        _ => next.sims == s.sims,
    }
    &&& match msg {
        PhoneToServer::MmiResult { code, success, response } => next.mmi_results@
            == s.mmi_results@.insert(device_id, MmiResult { code, success, response }),
        _ => next.mmi_results == s.mmi_results,
    }
    &&& match msg {
        PhoneToServer::VoicemailResult { enabled, success, response } => next.voicemail_results@
            == s.voicemail_results@.insert(
            device_id,
            VoicemailResult { enabled, success, response },
        ),
        _ => next.voicemail_results == s.voicemail_results,
    }
    &&& next == (DaemonState {
        registry: next.registry,
        pending_orphans: next.pending_orphans,
        inbox: next.inbox,
        call_log: next.call_log,
        sims: next.sims,
        mmi_results: next.mmi_results,
        voicemail_results: next.voicemail_results,
        ..s
    })
}

/// The command that a frame settles, and how.
pub open spec fn settles(msg: PhoneToServer) -> Option<(Seq<char>, Result<(), Seq<char>>)> {
    match msg {
        PhoneToServer::Ack { cmd_id, ok } => Some(
            (
                cmd_id@,
                if ok {
                    Ok(())
                } else {
                    Err("phone reported failure"@)
                },
            ),
        ),
        PhoneToServer::Error { cmd_id: Some(id), msg } => Some((id@, Err(msg@))),
        _ => None,
    }
}

/// Whether the hub has become `next` by a frame: the command that it settles, if the device's
/// connection awaits it, leaves the list and is settled as the frame says.
pub open spec fn hub_after(hub: Hub, device_id: Seq<char>, msg: PhoneToServer, next: Hub) -> bool {
    match settles(msg) {
        Some((id, result)) => if hub.awaits(device_id, id) {
            &&& hub.took_off(device_id, id, next)
            &&& settled_models(next.settled@) == settled_models(hub.settled@).push(
                SettledModel { gen: hub.conns@[device_id].gen, cmd_id: id, result },
            )
            &&& next == (Hub { conns: next.conns, settled: next.settled, ..hub })
        } else {
            next == hub
        },
        None => next == hub,
    }
}

/// Takes a frame of a connected phone in.
pub fn handle_phone_msg(
    state: &mut DaemonState,
    hub: &mut Hub,
    device_id: &str,
    msg: PhoneToServer,
    now_ms: i64,
) -> (r: Vec<Effect>)
    ensures
        effect_models(r@) == frame_effects(*old(state), device_id@, msg),
        state_after(*old(state), device_id@, msg, now_ms, *final(state)),
        hub_after(*old(hub), device_id@, msg, *final(hub)),
{
    let ghost s = *state;
    let mut out: Vec<Effect> = Vec::new();
    match msg {
        PhoneToServer::Heartbeat { ts, battery } => {
            if let Some(dev) = state.registry.get_mut(device_id) {
                dev.last_seen_ms = now_ms;
            }
            proof {
                assert(state.registry@.dom() =~= s.registry@.dom());
            }
            out.push(Effect::AckHeartbeat);
            proof {
                assert(effect_models(out@) =~= seq![EffectModel::AckHeartbeat]);
            }
        },
        PhoneToServer::CallState { call_id, state: cs, number, direction } => {
            let call = match cs {
                CallState::Ended => None,
                _ => Some(
                    CallInfo {
                        call_id: call_id.clone(),
                        number: text::copy_opt(&number),
                        state: cs,
                        direction,
                    },
                ),
            };
            if let Some(dev) = state.registry.get_mut(device_id) {
                dev.last_seen_ms = now_ms;
                dev.current_call = call;
            }
            proof {
                assert(state.registry@.dom() =~= s.registry@.dom());
            }
            let ghost orphan = if s.pending_orphans@.dom().contains(device_id@) {
                Some(s.pending_orphans@[device_id@]@)
            } else {
                None
            };
            mark_call(state, device_id, &call_id, cs, &mut out);
            let ghost marks = marker_effects(device_id@, call_id@, cs, orphan, s.card_busy);
            proof {
                assert(effect_models(out@) == marks);
                assert(marks + Seq::<EffectModel>::empty() =~= marks);
            }
            let ghost was = out@;
            let rings = match (cs, direction) {
                (CallState::Ringing, Direction::In) => true,
                _ => false,
            };
            if rings {
                let handler = match &number {
                    Some(n) => state.resolve_inbound(n),
                    None => None,
                };
                if let Some(handler) = handler {
                    let e = Effect::AutoAnswer { call_id, number, handler };
                    proof {
                        assert(effect_models(was.push(e)) =~= effect_models(was).push(e@));
                        assert(marks.push(e@) =~= marks + seq![e@]);
                    }
                    out.push(e);
                }
            }
        },
        PhoneToServer::Sms { direction, from, to, body, ts } => {
            state.record_sms(device_id, SmsRecord { direction, from, to, body, ts });
        },
        PhoneToServer::Calls { entries } => {
            state.set_call_log(device_id, entries);
        },
        PhoneToServer::Sims { entries } => {
            state.set_sims(device_id, entries);
        },
        PhoneToServer::MmiResult { code, success, response } => {
            state.set_mmi_result(device_id, MmiResult { code, success, response });
        },
        PhoneToServer::VoicemailResult { enabled, success, response } => {
            state.set_voicemail_result(device_id, VoicemailResult { enabled, success, response });
        },
        PhoneToServer::Ack { cmd_id, ok } => {
            let result = if ok {
                Ok(())
            } else {
                Err("phone reported failure".to_owned())
            };
            let _ = hub.resolve_ack(device_id, &cmd_id, result);
        },
        PhoneToServer::Error { cmd_id, msg } => {
            if let Some(id) = cmd_id {
                let _ = hub.resolve_ack(device_id, &id, Err(msg));
            }
        },
        PhoneToServer::Hello { .. } => {},
    }
    proof {
        assert(effect_models(Seq::<Effect>::empty()) =~= Seq::<EffectModel>::empty());
    }
    out
}

fn mark_call(
    state: &mut DaemonState,
    device_id: &str,
    call_id: &str,
    cs: CallState,
    out: &mut Vec<Effect>,
)
    requires
        old(out)@.len() == 0,
    ensures
        effect_models(final(out)@) == marker_effects(
            device_id@,
            call_id@,
            cs,
            if old(state).pending_orphans@.dom().contains(device_id@) {
                Some(old(state).pending_orphans@[device_id@]@)
            } else {
                None
            },
            old(state).card_busy,
        ),
        final(state).pending_orphans@ == (if cs != CallState::Ringing {
            old(state).pending_orphans@.remove(device_id@)
        } else {
            old(state).pending_orphans@
        }),
        *final(state) == (DaemonState {
            pending_orphans: final(state).pending_orphans,
            ..*old(state)
        }),
{
    match cs {
        CallState::Active => {
            match state.pending_orphans.remove(device_id) {
                Some(marked) => {
                    out.push(Effect::RemoveMarker);
                    if text::same(&marked, call_id) && !state.card_busy {
                        out.push(
                            Effect::Fire(Action::Hangup { call_id: Some(call_id.to_owned()) }),
                        );
                        let mut e = device_id.to_owned();
                        e.append(" → hung up an orphaned call (daemon had crashed)");
                        out.push(Effect::Emit(e));
                    }
                },
                None => {},
            }
            if state.card_busy {
                out.push(Effect::WriteMarker(call_id.to_owned()));
            }
        },
        CallState::Ended => {
            out.push(Effect::RemoveMarker);
            let _ = state.pending_orphans.remove(device_id);
        },
        CallState::Ringing => {},
    }
    proof {
        assert(effect_models(out@) =~= marker_effects(
            device_id@,
            call_id@,
            cs,
            if old(state).pending_orphans@.dom().contains(device_id@) {
                Some(old(state).pending_orphans@[device_id@]@)
            } else {
                None
            },
            old(state).card_busy,
        ));
    }
}

/// What to do about a call that rings.
#[derive(Debug)]
pub enum AnswerPlan {
    /// Send this answer, and that is all.
    Answer(Action),
    /// The call is for another phone.
    Ignore,
    /// The card is in use. Serving clients are told this.
    Busy(String),
    /// Tell serving clients this, answer, and run the job while holding the card.
    Run { card: CardGuard, path: String, event: String, answer: Action, number: String },
}

/// Whether an action answers a call.
pub open spec fn answers(a: Action, call_id: Seq<char>) -> bool {
    a matches Action::Answer { call_id: Some(c) } && c@ == call_id
}

/// Whether `r` is what is done about a call that rings, and `next` the state after it.
pub open spec fn acts_on(
    s: DaemonState,
    device_id: Seq<char>,
    call_id: Seq<char>,
    number: Option<Seq<char>>,
    handling: Handling,
    next: DaemonState,
    r: AnswerPlan,
) -> bool {
    match handling {
        Handling::AnswerOnly => {
            &&& r matches AnswerPlan::Answer(a)
            &&& answers(a, call_id)
            &&& next == s
        },
        Handling::Job { path, device } => if device is Some && device->0 != device_id {
            r is Ignore && next == s
        } else if s.card_busy {
            &&& r matches AnswerPlan::Busy(e)
            &&& e@ == "skipped "@ + (match number {
                Some(n) => n,
                None => "?"@,
            }) + " (phone busy)"@
            &&& next == s
        } else {
            &&& r matches AnswerPlan::Run { path: p, event, answer, number: n, .. }
            &&& p@ == path
            &&& n@ == (match number {
                Some(n) => n,
                None => Seq::empty(),
            })
            &&& event@ == "answered "@ + n@ + " → running "@ + path
            &&& answers(answer, call_id)
            &&& next == (DaemonState { card_busy: true, ..s })
        },
    }
}

/// Decides what to do about a call that rings: answer it, or answer it and run a job. One call
/// uses the card at a time; that also passes over repeated reports of the same call.
pub fn trigger_autoanswer(
    state: &mut DaemonState,
    device_id: &str,
    call_id: String,
    number: Option<String>,
    handler: InboundHandler,
) -> (r: AnswerPlan)
    ensures
        acts_on(*old(state), device_id@, call_id@, opt_view(number), handler@, *final(state), r),
{
    match handler {
        InboundHandler::AnswerOnly => AnswerPlan::Answer(Action::Answer { call_id: Some(call_id) }),
        InboundHandler::Job { path, device } => {
            if let Some(want) = &device {
                if !text::same(want, device_id) {
                    return AnswerPlan::Ignore;
                }
            }
            match state.acquire_card() {
                Some(card) => {
                    let n = match number {
                        Some(n) => n,
                        None => String::new(),
                    };
                    let mut event = "answered ".to_owned();
                    event.append(&n);
                    event.append(" → running ");
                    event.append(&path);
                    proof {
                        assert(number is None ==> n@ =~= Seq::<char>::empty());
                    }
                    AnswerPlan::Run {
                        card,
                        path,
                        event,
                        answer: Action::Answer { call_id: Some(call_id) },
                        number: n,
                    }
                },
                None => {
                    let n = match number {
                        Some(n) => n,
                        None => "?".to_owned(),
                    };
                    let mut e = "skipped ".to_owned();
                    e.append(&n);
                    e.append(" (phone busy)");
                    AnswerPlan::Busy(e)
                },
            }
        },
    }
}

/// What serving clients are told when the call could not be answered: no job runs then.
pub fn answer_failed(number: &str, error: &str) -> (r: String)
    ensures
        r@ == number@ + " → answer failed: "@ + error@,
{
    let mut s = number.to_owned();
    s.append(" → answer failed: ");
    s.append(error);
    s
}

/// What serving clients are told when the job could not be loaded: the call is answered.
pub fn load_failed(number: &str, error: &str) -> (r: String)
    ensures
        r@ == number@ + " → job load failed: "@ + error@ + " (call answered, no script)"@,
{
    let mut s = number.to_owned();
    s.append(" → job load failed: ");
    s.append(error);
    s.append(" (call answered, no script)");
    s
}

/// What serving clients are told when the job failed.
pub fn job_failed(number: &str, error: &str) -> (r: String)
    ensures
        r@ == number@ + " → job error: "@ + error@,
{
    let mut s = number.to_owned();
    s.append(" → job error: ");
    s.append(error);
    s
}

/// The summaries of some outcomes.
pub open spec fn summaries(outcomes: Seq<StepOutcome>) -> Seq<Seq<char>> {
    outcomes.map_values(|o: StepOutcome| o.summary@)
}

/// The lines about the steps that a hang-up skipped.
pub open spec fn skipped_lines(list: Seq<Seq<char>>) -> Seq<Seq<char>> {
    list.map_values(|s: Seq<char>| "  "@ + s)
}

/// What serving clients are told of a job that ran: that the caller hung up, and which steps were
/// skipped for it, or that it is done.
pub open spec fn job_lines(number: Seq<char>, list: Seq<Seq<char>>) -> Seq<Seq<char>> {
    let at = crate::table::first_of(list, CALL_ENDED_SUMMARY@) as int;
    if at < list.len() {
        seq![number + " → caller hung up"@] + skipped_lines(list.skip(at + 1)) + seq![
            "waiting for the next call"@,
        ]
    } else {
        seq![number + " → done"@]
    }
}

/// What serving clients are told of a job that ran.
pub fn job_events(number: &str, outcomes: &Vec<StepOutcome>) -> (r: Vec<String>)
    ensures
        views(r@) == job_lines(number@, summaries(outcomes@)),
{
    let ghost list = summaries(outcomes@);
    let mut at: usize = 0;
    while at < outcomes.len() && !text::same(&outcomes[at].summary, CALL_ENDED_SUMMARY)
        invariant
            at <= outcomes.len(),
            list == summaries(outcomes@),
            forall|j: int| 0 <= j < at ==> list[j] != CALL_ENDED_SUMMARY@,
        decreases outcomes.len() - at,
    {
        at += 1;
    }
    proof {
        crate::table::lemma_first_of(list, CALL_ENDED_SUMMARY@, at as int);
    }
    let mut out: Vec<String> = Vec::new();
    let mut first = number.to_owned();
    if at < outcomes.len() {
        first.append(" → caller hung up");
        out.push(first);
        let ghost skipped = skipped_lines(list.skip(at + 1));
        let mut i: usize = at + 1;
        proof {
            assert(views(out@) =~= seq![first@] + skipped.take(0));
        }
        while i < outcomes.len()
            invariant
                at < i <= outcomes.len(),
                list == summaries(outcomes@),
                skipped == skipped_lines(list.skip(at + 1)),
                views(out@) == seq![first@] + skipped.take(i - at - 1),
            decreases outcomes.len() - i,
        {
            let mut line = "  ".to_owned();
            line.append(&outcomes[i].summary);
            proof {
                assert(list.skip(at + 1)[i - at - 1] == outcomes@[i as int].summary@);
                text::lemma_views_push(out@, line);
                assert(skipped.take(i - at) =~= skipped.take(i - at - 1).push(line@));
                assert((seq![first@] + skipped.take(i - at - 1)).push(line@) =~= seq![first@]
                    + skipped.take(i - at));
            }
            out.push(line);
            i += 1;
        }
        let last = "waiting for the next call".to_owned();
        proof {
            assert(skipped.take(i - at - 1) =~= skipped);
            text::lemma_views_push(out@, last);
            assert((seq![first@] + skipped).push(last@) =~= seq![first@] + skipped + seq![last@]);
        }
        out.push(last);
    } else {
        first.append(" → done");
        out.push(first);
        proof {
            assert(views(out@) =~= seq![first@]);
        }
    }
    out
}

/// The line about a phone that fell silent.
pub open spec fn stale_line(device_id: Seq<char>) -> Seq<char> {
    "device "@ + device_id + " dropped (stale connection — no heartbeat)"@
}

/// Whether a device was silent for too long.
pub open spec fn is_silent(m: Map<Seq<char>, DeviceInfo>, device_id: Seq<char>, now_ms: i64) -> bool {
    m.dom().contains(device_id) && is_stale(m[device_id], (now_ms - STALE_AFTER_MS) as i64)
}

/// The lines about phones that fell silent.
pub open spec fn stale_lines(devices: Seq<Seq<char>>) -> Seq<Seq<char>> {
    devices.map_values(|d: Seq<char>| stale_line(d))
}

/// Whether `devices` are those that were silent for too long, in order.
pub open spec fn are_the_silent(
    devices: Seq<Seq<char>>,
    m: Map<Seq<char>, DeviceInfo>,
    now_ms: i64,
) -> bool {
    &&& in_order(devices)
    &&& forall|k: Seq<char>| #[trigger] devices.contains(k) <==> is_silent(m, k, now_ms)
}

/// Drops the phones that were silent for too long, and tells what serving clients are told.
pub fn reap_stale(state: &mut DaemonState, hub: &mut Hub, now_ms: i64) -> (r: Vec<String>)
    requires
        now_ms - STALE_AFTER_MS >= i64::MIN,
    ensures
        final(state).registry@ == without_stale(
            old(state).registry@,
            (now_ms - STALE_AFTER_MS) as i64,
        ),
        *final(state) == (DaemonState { registry: final(state).registry, ..*old(state) }),
        exists|devices: Seq<Seq<char>>|
            {
                &&& #[trigger] are_the_silent(devices, old(state).registry@, now_ms)
                &&& views(r@) == stale_lines(devices)
                &&& final(hub).shown() == with_all_dropped(old(hub).shown(), devices)
            },
        final(hub).seq == old(hub).seq,
        final(hub).conn_gen == old(hub).conn_gen,
{
    let cutoff: i64 = now_ms - STALE_AFTER_MS;
    let ghost reg = state.registry@;
    let ghost shown = hub.shown();
    let reaped = state.registry.reap_older_than(cutoff);
    let ghost all = views(reaped@);
    let mut out: Vec<String> = Vec::new();
    let mut i: usize = 0;
    proof {
        assert(views(out@) =~= stale_lines(all.take(0)));
    }
    while i < reaped.len()
        invariant
            i <= reaped.len(),
            all == views(reaped@),
            views(out@) == stale_lines(all.take(i as int)),
            hub.shown() == with_all_dropped(shown, all.take(i as int)),
            hub.seq == old(hub).seq,
            hub.conn_gen == old(hub).conn_gen,
        decreases reaped.len() - i,
    {
        hub.drop_device(&reaped[i]);
        let mut e = "device ".to_owned();
        e.append(&reaped[i]);
        e.append(" dropped (stale connection — no heartbeat)");
        proof {
            let next = all.take(i + 1);
            assert(next.drop_last() =~= all.take(i as int));
            assert(next.last() == all[i as int]);
            text::lemma_views_push(out@, e);
            assert(e@ == stale_line(all[i as int]));
            assert(stale_lines(next) =~= stale_lines(all.take(i as int)).push(e@));
        }
        out.push(e);
        i += 1;
    }
    proof {
        assert(all.take(i as int) =~= all);
        assert(are_the_silent(all, reg, now_ms));
    }
    out
}

/// A frame of one phone never touches another phone's record.
pub proof fn law_frames_touch_their_own_phone_only(
    s: DaemonState,
    device_id: Seq<char>,
    msg: PhoneToServer,
    now_ms: i64,
    next: DaemonState,
    other: Seq<char>,
)
    requires
        state_after(s, device_id, msg, now_ms, next),
        other != device_id,
        s.registry@.dom().contains(other),
    ensures
        next.registry@.dom().contains(other),
        next.registry@[other] == s.registry@[other],
{
}

/// A call that no marker names and that no job drives is left alone: a frame about it changes no
/// marker and hangs nothing up.
pub proof fn law_manual_calls_are_left_alone(
    device_id: Seq<char>,
    call_id: Seq<char>,
)
    ensures
        marker_effects(device_id, call_id, CallState::Active, None, false).len() == 0,
{
}

/// A command that a phone acknowledges with success is settled as successful; one that it
/// acknowledges without, or names in an error, is settled as failed. Only a command that the
/// phone's own connection awaits is settled, and each frame settles one at the most.
pub proof fn law_a_command_comes_out_as_the_phone_says(
    hub: Hub,
    device_id: Seq<char>,
    msg: PhoneToServer,
    next: Hub,
    cmd_id: Seq<char>,
)
    requires
        hub_after(hub, device_id, msg, next),
        hub.awaits(device_id, cmd_id),
        match msg {
            PhoneToServer::Ack { cmd_id: id, .. } => id@ == cmd_id,
            PhoneToServer::Error { cmd_id: Some(id), .. } => id@ == cmd_id,
            _ => false,
        },
    ensures
        next.settled@.len() == hub.settled@.len() + 1,
        forall|i: int|
            0 <= i < hub.settled@.len() ==> (#[trigger] next.settled@[i])@ == hub.settled@[i]@,
        next.settled@.last().cmd_id@ == cmd_id,
        next.settled@.last().gen == hub.conns@[device_id].gen,
        next.settled@.last().result is Ok <==> (msg matches PhoneToServer::Ack { ok, .. } && ok),
        next.settled@.last().result matches Err(e) ==> match msg {
            PhoneToServer::Error { msg: said, .. } => e@ == said@,
            _ => e@ == "phone reported failure"@,
        },
        next.closing == hub.closing,
        next.seq == hub.seq,
        next.conn_gen == hub.conn_gen,
{
    let was = settled_models(hub.settled@);
    let now = settled_models(next.settled@);
    assert(now.len() == next.settled@.len() && was.len() == hub.settled@.len());
    assert forall|i: int| 0 <= i < hub.settled@.len() implies (#[trigger] next.settled@[i])@
        == hub.settled@[i]@ by {
        assert(now[i] == was[i]);
    }
    assert(now.last() == next.settled@.last()@);
}

/// A frame that acknowledges nothing, or a command that the phone's connection does not await,
/// leaves the connections, the settled commands and what is to be closed as they are.
pub proof fn law_other_frames_settle_nothing(
    hub: Hub,
    device_id: Seq<char>,
    msg: PhoneToServer,
    next: Hub,
)
    requires
        hub_after(hub, device_id, msg, next),
        match msg {
            PhoneToServer::Ack { cmd_id, .. } => !hub.awaits(device_id, cmd_id@),
            PhoneToServer::Error { cmd_id: Some(id), .. } => !hub.awaits(device_id, id@),
            _ => true,
        },
    ensures
        next == hub,
{
}

/// What a frame reports is kept for its phone: when it was last seen, its call, its texts, its
/// call log, its SIMs and the results of its codes and of its voicemail requests. Each field is the
/// field of the frame that it is named after, and nothing else changes.
pub proof fn law_a_frame_is_kept_as_it_was_reported(
    s: DaemonState,
    device_id: Seq<char>,
    msg: PhoneToServer,
    now_ms: i64,
    next: DaemonState,
)
    requires
        state_after(s, device_id, msg, now_ms, next),
        s.registry@.dom().contains(device_id),
    ensures
        next.registry@.dom() == s.registry@.dom(),
        next.registry@[device_id].id == s.registry@[device_id].id,
        next.registry@[device_id].name == s.registry@[device_id].name,
        next.registry@[device_id].addr == s.registry@[device_id].addr,
        next.registry@[device_id].last_seen_ms == if msg is Heartbeat || msg is CallState {
            now_ms
        } else {
            s.registry@[device_id].last_seen_ms
        },
        match msg {
            PhoneToServer::CallState { call_id, state: cs, number, direction } => match next.call_of(
                device_id,
            ) {
                Some(c) => {
                    &&& cs is Ringing || cs is Active
                    &&& c.state == cs
                    &&& c.call_id@ == call_id@
                    &&& c.direction == direction
                    &&& match number {
                        Some(n) => c.number is Some && c.number->0@ == n@,
                        None => c.number is None,
                    }
                },
                None => cs is Ended,
            },
            _ => next.call_of(device_id) == s.call_of(device_id),
        },
        match msg {
            PhoneToServer::Sms { direction, from, to, body, ts } => {
                &&& next.inbox@.dom().contains(device_id)
                &&& next.inbox@[device_id]@.len() > 0
                &&& next.inbox@[device_id]@.last().direction == direction
                &&& next.inbox@[device_id]@.last().from == from
                &&& next.inbox@[device_id]@.last().to == to
                &&& next.inbox@[device_id]@.last().body == body
                &&& next.inbox@[device_id]@.last().ts == ts
            },
            _ => next.inbox == s.inbox,
        },
        match msg {
            PhoneToServer::Calls { entries } => next.call_log@.dom().contains(device_id)
                && next.call_log@[device_id] == entries,
            _ => next.call_log == s.call_log,
        },
        match msg {
            PhoneToServer::Sims { entries } => next.sims@.dom().contains(device_id)
                && next.sims@[device_id] == entries,
            _ => next.sims == s.sims,
        },
        match msg {
            PhoneToServer::MmiResult { code, success, response } => {
                &&& next.mmi_results@.dom().contains(device_id)
                &&& next.mmi_results@[device_id].code == code
                &&& next.mmi_results@[device_id].success == success
                &&& next.mmi_results@[device_id].response == response
            },
            _ => next.mmi_results == s.mmi_results,
        },
        match msg {
            PhoneToServer::VoicemailResult { enabled, success, response } => {
                &&& next.voicemail_results@.dom().contains(device_id)
                &&& next.voicemail_results@[device_id].enabled == enabled
                &&& next.voicemail_results@[device_id].success == success
                &&& next.voicemail_results@[device_id].response == response
            },
            _ => next.voicemail_results == s.voicemail_results,
        },
        next.config == s.config,
        next.card_busy == s.card_busy,
        next.serve_busy == s.serve_busy,
        next.job_cancel == s.job_cancel,
        next.job_force == s.job_force,
        next.job_abort == s.job_abort,
        next.overrides == s.overrides,
        next.instances == s.instances,
{
}

/// What a frame of one phone reports never stands under another phone.
pub proof fn law_reports_stay_with_their_phone(
    s: DaemonState,
    device_id: Seq<char>,
    msg: PhoneToServer,
    now_ms: i64,
    next: DaemonState,
    other: Seq<char>,
)
    requires
        state_after(s, device_id, msg, now_ms, next),
        other != device_id,
    ensures
        next.call_of(other) == s.call_of(other),
        next.inbox@.dom().contains(other) <==> s.inbox@.dom().contains(other),
        s.inbox@.dom().contains(other) ==> next.inbox@[other] == s.inbox@[other],
        next.call_log@.dom().contains(other) <==> s.call_log@.dom().contains(other),
        s.call_log@.dom().contains(other) ==> next.call_log@[other] == s.call_log@[other],
        next.sims@.dom().contains(other) <==> s.sims@.dom().contains(other),
        s.sims@.dom().contains(other) ==> next.sims@[other] == s.sims@[other],
        next.mmi_results@.dom().contains(other) <==> s.mmi_results@.dom().contains(other),
        s.mmi_results@.dom().contains(other) ==> next.mmi_results@[other] == s.mmi_results@[other],
        next.voicemail_results@.dom().contains(other) <==> s.voicemail_results@.dom().contains(
            other,
        ),
        s.voicemail_results@.dom().contains(other) ==> next.voicemail_results@[other]
            == s.voicemail_results@[other],
        next.pending_orphans@.dom().contains(other) <==> s.pending_orphans@.dom().contains(other),
        s.pending_orphans@.dom().contains(other) ==> next.pending_orphans@[other]
            == s.pending_orphans@[other],
{
}

/// An earlier run's call of a phone is looked at once: when the phone first reports a call that is
/// active or has ended, it is forgotten, and a ringing call leaves it.
pub proof fn law_an_orphan_is_looked_at_once(
    s: DaemonState,
    device_id: Seq<char>,
    msg: PhoneToServer,
    now_ms: i64,
    next: DaemonState,
)
    requires
        state_after(s, device_id, msg, now_ms, next),
    ensures
        next.pending_orphans@.dom().contains(device_id) <==> s.pending_orphans@.dom().contains(
            device_id,
        ) && !(msg matches PhoneToServer::CallState { state: cs, .. } && (cs is Active
            || cs is Ended)),
        next.pending_orphans@.dom().contains(device_id) ==> next.pending_orphans@[device_id]
            == s.pending_orphans@[device_id],
{
}

/// A call is hung up on its phone's own report only where it is active, an earlier run of the
/// daemon marked it, and no job is running; then it is that very call. A call that a job drives
/// is marked when it is active, and the marker goes when the call ends.
pub proof fn law_calls_are_marked_and_orphans_hung_up(
    s: DaemonState,
    device_id: Seq<char>,
    msg: PhoneToServer,
    id: Seq<char>,
)
    ensures
        frame_effects(s, device_id, msg).contains(EffectModel::FireHangup(id)) <==> {
            &&& msg matches PhoneToServer::CallState { call_id, state: cs, .. }
            &&& cs is Active
            &&& call_id@ == id
            &&& s.pending_orphans@.dom().contains(device_id)
            &&& s.pending_orphans@[device_id]@ == id
            &&& !s.card_busy
        },
        frame_effects(s, device_id, msg).contains(EffectModel::WriteMarker(id)) <==> {
            &&& msg matches PhoneToServer::CallState { call_id, state: cs, .. }
            &&& cs is Active
            &&& call_id@ == id
            &&& s.card_busy
        },
        frame_effects(s, device_id, msg).contains(EffectModel::RemoveMarker) <==> {
            &&& msg matches PhoneToServer::CallState { state: cs, .. }
            &&& cs is Ended || (cs is Active && s.pending_orphans@.dom().contains(device_id))
        },
        frame_effects(s, device_id, msg).contains(EffectModel::AckHeartbeat) <==> msg is Heartbeat,
        forall|i: int|
            0 <= i < frame_effects(s, device_id, msg).len() ==> !(#[trigger] frame_effects(
                s,
                device_id,
                msg,
            )[i] is FireOther),
{
    let e = frame_effects(s, device_id, msg);
    match msg {
        PhoneToServer::Heartbeat { .. } => {
            assert(e[0] == EffectModel::AckHeartbeat);
        },
        PhoneToServer::CallState { call_id, state: cs, number, direction } => {
            let orphan = if s.pending_orphans@.dom().contains(device_id) {
                Some(s.pending_orphans@[device_id]@)
            } else {
                None
            };
            let m = marker_effects(device_id, call_id@, cs, orphan, s.card_busy);
            let a = answer_effects(s, call_id@, cs, opt_view(number), direction);
            assert(e == m + a);
            assert(forall|i: int| 0 <= i < m.len() ==> e[i] == m[i]);
            if m.len() > 0 {
                assert(e[0] == m[0]);
            }
            if m.len() > 1 {
                assert(e[1] == m[1]);
            }
            if m.len() > 2 {
                assert(e[2] == m[2]);
            }
        },
        _ => {},
    }
}

/// A call is acted on where it rings, comes in, and its number is one that is answered; it is
/// acted on as that number is, under its own id. No other frame has a call answered.
pub proof fn law_a_ringing_call_is_acted_on(
    s: DaemonState,
    device_id: Seq<char>,
    msg: PhoneToServer,
    id: Seq<char>,
    from: Option<Seq<char>>,
    h: Handling,
)
    ensures
        frame_effects(s, device_id, msg).contains(
            EffectModel::AutoAnswer { call_id: id, number: from, handling: h },
        ) <==> {
            &&& msg matches PhoneToServer::CallState { call_id, state: cs, number, direction }
            &&& cs is Ringing
            &&& direction is In
            &&& call_id@ == id
            &&& number matches Some(n)
            &&& from == Some(n@)
            &&& s.handling(n@) == Some(h)
        },
{
    let e = frame_effects(s, device_id, msg);
    match msg {
        PhoneToServer::CallState { call_id, state: cs, number, direction } => {
            if cs is Ringing {
                let a = answer_effects(s, call_id@, cs, opt_view(number), direction);
                assert(e =~= a);
                if a.len() > 0 {
                    assert(e[0] == a[0]);
                }
            }
        },
        _ => {},
    }
}

/// A marker of an earlier run is removed before this run's is written, and nothing follows that.
pub proof fn law_a_new_marker_outlasts_the_old(
    device_id: Seq<char>,
    call_id: Seq<char>,
    orphan: Option<Seq<char>>,
)
    ensures
        marker_effects(device_id, call_id, CallState::Active, orphan, true).last()
            == EffectModel::WriteMarker(call_id),
{
}

/// An app was launched anew exactly where it named another launch before.
pub proof fn law_a_reconnect_is_no_relaunch(new: Seq<char>, prior: Seq<char>)
    ensures
        !relaunched(new, None),
        relaunched(new, Some(prior)) <==> new != prior,
{
}

/// What answers a call is an answer to that call and no other.
pub proof fn law_an_answer_names_its_call(a: Action, call_id: Seq<char>)
    requires
        answers(a, call_id),
    ensures
        a is Answer,
        a->Answer_call_id matches Some(c) && c@ == call_id,
{
}

/// A job that no hang-up cut short is told as done. Otherwise its lines begin with the hang-up,
/// hold each step behind it, in order, and end with the wait for the next call.
pub proof fn law_skipped_steps_are_told(number: Seq<char>, list: Seq<Seq<char>>, at: int)
    requires
        0 <= at <= list.len(),
        at < list.len() ==> list[at] == CALL_ENDED_SUMMARY@,
        forall|j: int| 0 <= j < at ==> list[j] != CALL_ENDED_SUMMARY@,
    ensures
        at == list.len() ==> job_lines(number, list) == seq![number + " → done"@],
        at < list.len() ==> {
            let told = job_lines(number, list);
            &&& told.len() == list.len() - at + 1
            &&& told[0] == number + " → caller hung up"@
            &&& told.last() == "waiting for the next call"@
            &&& forall|j: int| at < j < list.len() ==> told[j - at] == "  "@ + #[trigger] list[j]
        },
{
    crate::table::lemma_first_of(list, CALL_ENDED_SUMMARY@, at);
    if at < list.len() {
        let told = job_lines(number, list);
        assert forall|j: int| at < j < list.len() implies told[j - at] == "  "@ + #[trigger] list[j] by {
            assert(list.skip(at + 1)[j - at - 1] == list[j]);
        }
    }
}

/// A phone is dropped exactly where it was last heard of more than 90 seconds ago.
pub proof fn law_a_silent_phone_is_dropped(
    m: Map<Seq<char>, DeviceInfo>,
    device_id: Seq<char>,
    now_ms: i64,
)
    requires
        now_ms - 90_000 >= i64::MIN,
    ensures
        is_silent(m, device_id, now_ms) <==> m.dom().contains(device_id) && now_ms
            - m[device_id].last_seen_ms > 90_000,
        without_stale(m, (now_ms - STALE_AFTER_MS) as i64).dom().contains(device_id) <==> m.dom().contains(
            device_id,
        ) && now_ms - m[device_id].last_seen_ms <= 90_000,
{
}

/// Serving clients get one line for each phone that fell silent, and it names that phone.
pub proof fn law_each_silent_phone_is_told(devices: Seq<Seq<char>>, i: int)
    requires
        0 <= i < devices.len(),
    ensures
        stale_lines(devices).len() == devices.len(),
        stale_lines(devices)[i] == "device "@ + devices[i]
            + " dropped (stale connection — no heartbeat)"@,
{
}

/// A phone is greeted exactly where its first frame is a hello with the shared key, and by what that
/// says of it; one with another key is told so by its name.
pub proof fn law_only_the_shared_key_is_greeted(
    first: PhoneToServer,
    shared_key: Seq<char>,
    r: Result<Greeting, HelloRefusal>,
)
    requires
        greets(first, shared_key, r),
    ensures
        r is Ok <==> (first matches PhoneToServer::Hello { key, .. } && key@ == shared_key),
        first matches PhoneToServer::Hello { device_id, name, instance_id, .. } ==> (r matches Ok(g)
            ==> g.device_id@ == device_id@ && g.name@ == name@ && g.instance_id@ == instance_id@),
        r matches Err(e) ==> (e is BadKey <==> first is Hello),
        first matches PhoneToServer::Hello { device_id, .. } ==> (r matches Err(HelloRefusal::BadKey(e))
            ==> e@ == "rejected device `"@ + device_id@ + "`: bad shared key"@),
{
}

/// A phone that connects is registered under its own id, with its name, its address and the time,
/// on the newest connection. Its call is kept where the app is the one that was there before, and
/// forgotten where it was launched anew; then, and only then, a running job is stopped. Other
/// phones stay as they are.
pub proof fn law_a_reconnect_keeps_the_call(
    s: DaemonState,
    hub: Hub,
    hello: Greeting,
    addr: Seq<char>,
    now_ms: i64,
    next: DaemonState,
    next_hub: Hub,
    r: Connected,
    other: Seq<char>,
)
    requires
        connects(s, hub, hello, addr, now_ms, next, next_hub, r),
        other != hello.device_id@,
    ensures
        next_hub.is_current(hello.device_id@, r.gen),
        next.registry@.dom().contains(hello.device_id@),
        next.registry@[hello.device_id@].id@ == hello.device_id@,
        next.registry@[hello.device_id@].name@ == hello.name@,
        next.registry@[hello.device_id@].last_seen_ms == now_ms,
        next.registry@[hello.device_id@].addr is Some,
        next.registry@[hello.device_id@].addr->0@ == addr,
        ({
            let known = s.instances@.dom().contains(hello.device_id@);
            let anew = known && s.instances@[hello.device_id@]@ != hello.instance_id@;
            &&& anew ==> next.call_of(hello.device_id@) is None
            &&& !anew ==> next.call_of(hello.device_id@) == s.call_of(hello.device_id@)
            &&& r.aborted is Some <==> anew && s.card_busy
            &&& next.job_abort <==> s.job_abort || (anew && s.card_busy)
        }),
        next.instances@.dom().contains(hello.device_id@),
        next.instances@[hello.device_id@]@ == hello.instance_id@,
        next.registry@.dom().contains(other) <==> s.registry@.dom().contains(other),
        s.registry@.dom().contains(other) ==> next.registry@[other] == s.registry@[other],
        next.card_busy == s.card_busy,
        next.job_cancel == s.job_cancel,
        next.job_force == s.job_force,
        next.pending_orphans == s.pending_orphans,
        next.inbox == s.inbox,
{
}

/// A ringing call is answered, under its own id, where its number is only to be answered or its job
/// can run; then the card is taken, and the job is the number's. A call for another phone is left
/// alone, and so is one that comes while a job is running.
pub proof fn law_a_ringing_call_is_answered_for_its_job(
    s: DaemonState,
    device_id: Seq<char>,
    call_id: Seq<char>,
    number: Option<Seq<char>>,
    handling: Handling,
    next: DaemonState,
    r: AnswerPlan,
)
    requires
        acts_on(s, device_id, call_id, number, handling, next, r),
    ensures
        r is Answer <==> handling is AnswerOnly,
        r matches AnswerPlan::Answer(a) ==> (a matches Action::Answer { call_id: Some(c) } && c@
            == call_id),
        r is Ignore <==> handling is Job && handling->device is Some && handling->device->0
            != device_id,
        r is Busy <==> handling is Job && !(r is Ignore) && s.card_busy,
        r matches AnswerPlan::Run { path, answer, number: n, .. } ==> {
            &&& handling is Job
            &&& !s.card_busy
            &&& path@ == handling->path
            &&& answer matches Action::Answer { call_id: Some(c) } && c@ == call_id
            &&& number matches Some(m) ==> n@ == m
        },
        next.card_busy <==> s.card_busy || r is Run,
        next.registry == s.registry,
        next.overrides == s.overrides,
        next.job_cancel == s.job_cancel,
{
}

} // verus!
