//! The daemon's state and the dispatch of control requests.
//!
//! [`DaemonState::try_handle`] decides what a request asks for: a [`Plan`] that names the command
//! to send, the job to run or the answer to give. Whoever owns the sockets carries the plan out.

use vstd::prelude::*;

use crate::audio::mic_permission::{self, Gate};
#[allow(unused_imports)]
use crate::audio::mic_permission::gate_label;
use crate::config::{join_name, AudioConfig, Config, MixChannels};
#[allow(unused_imports)]
use crate::config::inside;
use crate::jobs::schema::{self, Step, StepKind};
use crate::paths;
#[allow(unused_imports)]
use crate::paths::{parent_of, resolved_under};
use crate::protocol::{Action, ControlOp};
use crate::registry::{
    CallRecord, DeviceInfo, MmiResult, Registry, SimInfo, SmsRecord, VoicemailResult,
};
#[allow(unused_imports)]
use crate::registry::{by_id, lists};
use crate::table;
use crate::table::Table;
#[allow(unused_imports)]
use crate::table::{first_of, in_order, text_table, without_keys};
use crate::text;
use crate::transport::discovery::AdvertReport;
#[allow(unused_imports)]
use crate::text::{
    contains_text, last_piece, lines, opt_view, parsed_between, signed_decimal, trimmed, views, words,
};

verus! {

/// Most recent texts kept per device.
pub const INBOX_CAP: usize = 200;

/// Milliseconds that a phone gets to report a list.
pub const ASK_WAIT_MS: u64 = 800;

/// Milliseconds between two looks for a result.
pub const POLL_EVERY_MS: u64 = 500;

/// A live auto-answer override. It takes precedence over the configuration and is removed when
/// the client that registered it disconnects.
#[derive(Debug)]
pub struct AutoanswerOverride {
    /// Identifies the registration, so that its owner removes only its own.
    pub token: u64,
    /// Absolute path of the job to run on a matching inbound call.
    pub path: String,
    /// Restricts the override to this device.
    pub device: Option<String>,
}

/// The right to use the sound card: one call or recording at a time.
#[derive(Debug)]
pub struct CardGuard {
    seal: (),
}

/// The right to serve inbound calls: one session at a time.
#[derive(Debug)]
pub struct ServeGuard {
    seal: (),
}

/// How an inbound call from a matched number is handled.
#[derive(Debug, PartialEq, Eq)]
pub enum InboundHandler {
    /// Just answer the call.
    AnswerOnly,
    /// Answer and run this job, possibly on one device only.
    Job { path: String, device: Option<String> },
}

/// The daemon's state.
pub struct DaemonState {
    pub registry: Registry,
    pub config: Config,
    /// Directory of the configuration file; relative paths in it resolve here.
    pub config_dir: Option<String>,
    /// Whether a job is using the sound card.
    pub card_busy: bool,
    /// Whether a serve session is running.
    pub serve_busy: bool,
    /// Whether the running job is to stop at the next step.
    pub job_cancel: bool,
    /// Whether the running job is to stop within its step.
    pub job_force: bool,
    /// Whether the running job is to stop because its phone app was launched anew.
    pub job_abort: bool,
    /// The last launch seen of each device's app.
    pub instances: Table<String>,
    /// Calls that a previous run of the daemon may have left up, by device.
    pub pending_orphans: Table<String>,
    /// Live auto-answer overrides, by number.
    pub overrides: Table<AutoanswerOverride>,
    /// The next registration of overrides.
    pub serve_token: u64,
    /// Recent texts, by device.
    pub inbox: Table<Vec<SmsRecord>>,
    /// The last call log, by device.
    pub call_log: Table<Vec<CallRecord>>,
    /// The last SIM list, by device.
    pub sims: Table<Vec<SimInfo>>,
    /// The last reply to a raw code, by device.
    pub mmi_results: Table<MmiResult>,
    /// The last voicemail result, by device.
    pub voicemail_results: Table<VoicemailResult>,
}

/// A list of recent texts with one more, cut to the most recent ones.
pub open spec fn with_recent(v: Seq<SmsRecord>, rec: SmsRecord) -> Seq<SmsRecord> {
    let all = v.push(rec);
    if all.len() > INBOX_CAP {
        all.skip(all.len() - INBOX_CAP)
    } else {
        all
    }
}

/// The overrides that were not registered under `token`.
pub open spec fn without_token(
    m: Map<Seq<char>, AutoanswerOverride>,
    token: u64,
) -> Map<Seq<char>, AutoanswerOverride> {
    Map::new(|k: Seq<char>| m.dom().contains(k) && m[k].token != token, |k: Seq<char>| m[k])
}

/// How a call from `number` is handled, its texts as characters.
pub enum Handling {
    AnswerOnly,
    Job { path: Seq<char>, device: Option<Seq<char>> },
}

impl View for InboundHandler {
    type V = Handling;

    open spec fn view(&self) -> Handling {
        match *self {
            InboundHandler::AnswerOnly => Handling::AnswerOnly,
            InboundHandler::Job { path, device } => Handling::Job {
                path: path@,
                device: opt_view(device),
            },
        }
    }
}

impl DaemonState {
    /// The state of a daemon that has just started.
    pub fn new(
        config: Config,
        config_dir: Option<String>,
        pending_orphans: Table<String>,
    ) -> (r: Self)
        ensures
            r.registry@ == Map::<Seq<char>, DeviceInfo>::empty(),
            r.config == config,
            r.config_dir == config_dir,
            !r.card_busy,
            !r.serve_busy,
            !r.job_cancel,
            !r.job_force,
            !r.job_abort,
            r.instances@ == Map::<Seq<char>, String>::empty(),
            r.pending_orphans == pending_orphans,
            r.overrides@ == Map::<Seq<char>, AutoanswerOverride>::empty(),
            r.serve_token == 1,
            r.inbox@ == Map::<Seq<char>, Vec<SmsRecord>>::empty(),
            r.call_log@ == Map::<Seq<char>, Vec<CallRecord>>::empty(),
            r.sims@ == Map::<Seq<char>, Vec<SimInfo>>::empty(),
            r.mmi_results@ == Map::<Seq<char>, MmiResult>::empty(),
            r.voicemail_results@ == Map::<Seq<char>, VoicemailResult>::empty(),
    {
        DaemonState {
            registry: Registry::new(),
            config,
            config_dir,
            card_busy: false,
            serve_busy: false,
            job_cancel: false,
            job_force: false,
            job_abort: false,
            instances: Table::new(),
            pending_orphans,
            overrides: Table::new(),
            serve_token: 1,
            inbox: Table::new(),
            call_log: Table::new(),
            sims: Table::new(),
            mmi_results: Table::new(),
            voicemail_results: Table::new(),
        }
    }

    /// A fresh registration of overrides.
    pub fn next_serve_token(&mut self) -> (r: u64)
        ensures
            r == old(self).serve_token,
            *final(self) == (DaemonState {
                serve_token: (if r == u64::MAX {
                    0
                } else {
                    (r + 1) as u64
                }),
                ..*old(self)
            }),
    {
        let t: u64 = self.serve_token;
        self.serve_token = if t == u64::MAX {
            0
        } else {
            t + 1
        };
        t
    }

    /// Registers an override for one number. The last registration for a number wins.
    pub fn register_override(&mut self, number: String, ov: AutoanswerOverride)
        ensures
            final(self).overrides@ == old(self).overrides@.insert(number@, ov),
            *final(self) == (DaemonState { overrides: final(self).overrides, ..*old(self) }),
    {
        self.overrides.insert(number, ov);
    }

    /// Removes every override registered under `token`.
    pub fn clear_overrides(&mut self, token: u64)
        ensures
            final(self).overrides@ == without_token(old(self).overrides@, token),
            *final(self) == (DaemonState { overrides: final(self).overrides, ..*old(self) }),
    {
        let ghost m = self.overrides@;
        let numbers = self.overrides.sorted_keys();
        let mut own: Vec<String> = Vec::new();
        let mut i: usize = 0;
        while i < numbers.len()
            invariant
                i <= numbers.len(),
                m == self.overrides@,
                *self == *old(self),
                forall|k: Seq<char>| views(numbers@).contains(k) <==> m.dom().contains(k),
                forall|k: Seq<char>| #[trigger]
                    views(own@).contains(k) <==> (views(numbers@).take(i as int).contains(k)
                        && m[k].token == token),
            decreases numbers.len() - i,
        {
            let ghost kk = views(numbers@)[i as int];
            let ghost head = views(numbers@).take(i as int);
            let ghost had = views(own@);
            proof {
                assert(views(numbers@).contains(kk));
                assert(views(numbers@).take(i + 1) =~= head.push(kk));
                lemma_push_contains(head, kk);
            }
            let is_own = match self.overrides.get(&numbers[i]) {
                Some(ov) => ov.token == token,
                None => false,
            };
            if is_own {
                let n = numbers[i].clone();
                proof {
                    text::lemma_views_push(own@, n);
                    lemma_push_contains(had, kk);
                }
                own.push(n);
            }
            proof {
                assert forall|k: Seq<char>| #[trigger] views(own@).contains(k) <==> (views(
                    numbers@,
                ).take(i + 1).contains(k) && m[k].token == token) by {
                    assert(had.contains(k) <==> (head.contains(k) && m[k].token == token));
                }
            }
            i += 1;
        }
        self.overrides.remove_all(&own);
        proof {
            assert(views(numbers@).take(i as int) =~= views(numbers@));
            assert(self.overrides@ =~= without_token(m, token));
        }
    }

    /// How a call from `number` is handled: a live override wins over the configuration.
    pub open spec fn handling(self, number: Seq<char>) -> Option<Handling> {
        if self.overrides@.dom().contains(number) {
            let ov = self.overrides@[number];
            Some(Handling::Job { path: ov.path@, device: opt_view(ov.device) })
        } else if self.config.autoanswer@.dom().contains(number) {
            match self.config.autoanswer@[number] {
                None => Some(Handling::AnswerOnly),
                Some(path) => Some(
                    Handling::Job {
                        path: resolved_under(opt_view(self.config_dir), path@),
                        device: None,
                    },
                ),
            }
        } else {
            None
        }
    }

    /// How an inbound call from `number` is handled; `None` lets it ring.
    pub fn resolve_inbound(&self, number: &str) -> (r: Option<InboundHandler>)
        ensures
            (match r {
                Some(h) => Some(h@),
                None => None,
            }) == self.handling(number@),
    {
        if let Some(ov) = self.overrides.get(number) {
            return Some(
                InboundHandler::Job {
                    path: ov.path.clone(),
                    device: text::copy_opt(&ov.device),
                },
            );
        }
        match self.config.autoanswer.get(number) {
            None => None,
            Some(entry) => match entry {
                None => Some(InboundHandler::AnswerOnly),
                Some(path) => {
                    let base = match &self.config_dir {
                        Some(d) => Some(d.as_str()),
                        None => None,
                    };
                    Some(
                        InboundHandler::Job { path: paths::resolve_under(base, path), device: None },
                    )
                },
            },
        }
    }

    /// Takes the sound card for a call or recording, unless a job is using it.
    pub fn acquire_card(&mut self) -> (r: Option<CardGuard>)
        ensures
            r is Some <==> !old(self).card_busy,
            *final(self) == (DaemonState { card_busy: true, ..*old(self) }),
    {
        if self.card_busy {
            None
        } else {
            self.card_busy = true;
            Some(CardGuard { seal: () })
        }
    }

    /// Gives the sound card back.
    pub fn release_card(&mut self, guard: CardGuard)
        ensures
            *final(self) == (DaemonState { card_busy: false, ..*old(self) }),
    {
        let _ = guard;
        self.card_busy = false;
    }

    /// Takes the serve slot, unless a session has it.
    pub fn acquire_serve(&mut self) -> (r: Option<ServeGuard>)
        ensures
            r is Some <==> !old(self).serve_busy,
            *final(self) == (DaemonState { serve_busy: true, ..*old(self) }),
    {
        if self.serve_busy {
            None
        } else {
            self.serve_busy = true;
            Some(ServeGuard { seal: () })
        }
    }

    /// Gives the serve slot back.
    pub fn release_serve(&mut self, guard: ServeGuard)
        ensures
            *final(self) == (DaemonState { serve_busy: false, ..*old(self) }),
    {
        let _ = guard;
        self.serve_busy = false;
    }

    /// Appends a text to a device's inbox, of which the most recent ones are kept.
    pub fn record_sms(&mut self, device_id: &str, rec: SmsRecord)
        ensures
            ({
                let was = if old(self).inbox@.dom().contains(device_id@) {
                    old(self).inbox@[device_id@]@
                } else {
                    Seq::empty()
                };
                let now = final(self).inbox@;
                &&& now.dom() == old(self).inbox@.dom().insert(device_id@)
                &&& now[device_id@]@ == with_recent(was, rec)
                &&& forall|k: Seq<char>|
                    k != device_id@ && old(self).inbox@.dom().contains(k) ==> #[trigger] now[k]
                        == old(self).inbox@[k]
            }),
            *final(self) == (DaemonState { inbox: final(self).inbox, ..*old(self) }),
    {
        let ghost m = self.inbox@;
        let mut v = match self.inbox.remove(device_id) {
            Some(v) => v,
            None => Vec::new(),
        };
        v.push(rec);
        if v.len() > INBOX_CAP {
            let from: usize = v.len() - INBOX_CAP;
            let ghost all = v@;
            v = v.split_off(from);
            assert(v@ =~= all.skip(from as int));
        }
        self.inbox.insert(device_id.to_owned(), v);
        proof {
            assert(self.inbox@.dom() =~= m.dom().insert(device_id@));
        }
    }

    /// Replaces a device's call log.
    pub fn set_call_log(&mut self, device_id: &str, entries: Vec<CallRecord>)
        ensures
            final(self).call_log@ == old(self).call_log@.insert(device_id@, entries),
            *final(self) == (DaemonState { call_log: final(self).call_log, ..*old(self) }),
    {
        self.call_log.insert(device_id.to_owned(), entries);
    }

    /// Replaces a device's SIM list.
    pub fn set_sims(&mut self, device_id: &str, entries: Vec<SimInfo>)
        ensures
            final(self).sims@ == old(self).sims@.insert(device_id@, entries),
            *final(self) == (DaemonState { sims: final(self).sims, ..*old(self) }),
    {
        self.sims.insert(device_id.to_owned(), entries);
    }

    /// Records the latest reply to a raw code.
    pub fn set_mmi_result(&mut self, device_id: &str, result: MmiResult)
        ensures
            final(self).mmi_results@ == old(self).mmi_results@.insert(device_id@, result),
            *final(self) == (DaemonState { mmi_results: final(self).mmi_results, ..*old(self) }),
    {
        self.mmi_results.insert(device_id.to_owned(), result);
    }

    /// Records the latest voicemail result.
    pub fn set_voicemail_result(&mut self, device_id: &str, result: VoicemailResult)
        ensures
            final(self).voicemail_results@ == old(self).voicemail_results@.insert(
                device_id@,
                result,
            ),
            *final(self) == (DaemonState {
                voicemail_results: final(self).voicemail_results,
                ..*old(self)
            }),
    {
        self.voicemail_results.insert(device_id.to_owned(), result);
    }
}

proof fn lemma_push_contains(s: Seq<Seq<char>>, x: Seq<char>)
    ensures
        forall|k: Seq<char>| s.push(x).contains(k) <==> (s.contains(k) || k == x),
{
    assert forall|k: Seq<char>| s.push(x).contains(k) <==> (s.contains(k) || k == x) by {
        if s.contains(k) {
            let j = choose|j: int| 0 <= j < s.len() && s[j] == k;
            assert(s.push(x)[j] == k);
        }
        assert(s.push(x)[s.len() as int] == x);
    }
}

/// Removing a registration's overrides brings back what the configuration says of each number
/// that it had overridden.
pub proof fn law_clearing_reverts_to_the_configuration(
    before: DaemonState,
    after: DaemonState,
    token: u64,
    number: Seq<char>,
)
    requires
        before.overrides@.dom().contains(number),
        before.overrides@[number].token == token,
        after.overrides@ == without_token(before.overrides@, token),
        after == (DaemonState { overrides: after.overrides, ..before }),
    ensures
        !after.overrides@.dom().contains(number),
        after.config == before.config,
        after.handling(number) == (if before.config.autoanswer@.dom().contains(number) {
            match before.config.autoanswer@[number] {
                None => Some(Handling::AnswerOnly),
                Some(path) => Some(
                    Handling::Job {
                        path: resolved_under(opt_view(before.config_dir), path@),
                        device: None,
                    },
                ),
            }
        } else {
            None
        }),
{
}

/// Removing a registration's overrides leaves those of other registrations as they are.
pub proof fn law_clearing_keeps_other_registrations(
    m: Map<Seq<char>, AutoanswerOverride>,
    token: u64,
    number: Seq<char>,
)
    requires
        m.dom().contains(number),
        m[number].token != token,
    ensures
        without_token(m, token).dom().contains(number),
        without_token(m, token)[number] == m[number],
{
}

/// An inbox never holds more than its cap, and its newest text is the one recorded last.
pub proof fn law_the_inbox_is_capped(v: Seq<SmsRecord>, rec: SmsRecord)
    ensures
        v.len() <= INBOX_CAP ==> with_recent(v, rec).len() <= INBOX_CAP,
        with_recent(v, rec).len() > 0,
        with_recent(v, rec).last() == rec,
{
}

// ---------------------------------------------------------------------------
// Control requests
// ---------------------------------------------------------------------------

/// A list that a phone reports on request.
#[derive(Debug, Clone, Copy, PartialEq, Eq, Structural)]
pub enum Query {
    Messages,
    Calls,
    Sims,
}

/// A result that a phone reports some time after a request.
#[derive(Debug, Clone, Copy, PartialEq, Eq, Structural)]
pub enum Wanted {
    Mmi,
    Voicemail,
}

/// What an answered request carries.
#[derive(Debug)]
pub enum Reply {
    /// Nothing but success.
    Done,
    Devices(Vec<DeviceInfo>),
    Dialed { number: String, sim_sub_id: Option<i32> },
    Messages(Vec<SmsRecord>),
    Calls(Vec<CallRecord>),
    Sims(Vec<SimInfo>),
    Mmi(MmiResult),
    Voicemail(VoicemailResult),
    Cancelled { force: bool },
    /// A line for a serving client.
    Event(String),
}

/// What a request asks for.
#[derive(Debug)]
pub enum Plan {
    /// Answer with the daemon's version.
    Info,
    /// Answer at once.
    Answer(Reply),
    /// Send a command, and answer once the phone has acknowledged it.
    Command { device: String, action: Action, reply: Reply },
    /// Send a command, give the phone [`ASK_WAIT_MS`], and answer with the list it reported.
    Ask { device: String, action: Action, query: Query },
    /// Send a command, and look for its result every [`POLL_EVERY_MS`], `tries` times.
    Await { device: String, action: Action, wanted: Wanted, tries: u32 },
    /// Play an audio file.
    Play { file: String },
    /// Load a job file, and go on with [`DaemonState::start_job`].
    LoadJob { path: String, device: Option<String> },
    /// Run a job. The sound card is held for it.
    RunJob { device: String, steps: Vec<Step>, card: CardGuard },
}

/// The device that a request without a phone step runs on.
pub open spec fn local_device() -> Seq<char> {
    "local"@
}

impl DaemonState {
    /// Why a request's device cannot be told, if it cannot.
    pub open spec fn device_error(self, device: Option<Seq<char>>) -> Option<Seq<char>> {
        match device {
            Some(d) => if self.registry@.dom().contains(d) {
                None
            } else {
                Some("unknown device `"@ + d + "`"@)
            },
            None => if exists|k: Seq<char>| self.registry@.dom() == #[trigger] set![k] {
                None
            } else {
                Some("no device specified and not exactly one is connected"@)
            },
        }
    }

    /// Whether `r` is the device that a request names, or the only one that is connected.
    pub open spec fn is_device(self, device: Option<Seq<char>>, r: Seq<char>) -> bool {
        match device {
            Some(d) => r == d,
            None => self.registry@.dom() == set![r],
        }
    }

    /// The device of a request: the one that it names, or the only one that is connected.
    pub fn resolve_device(&self, device: Option<String>) -> (r: Result<String, String>)
        ensures
            match r {
                Ok(d) => self.device_error(opt_view(device)) is None && self.is_device(
                    opt_view(device),
                    d@,
                ),
                Err(e) => self.device_error(opt_view(device)) == Some(e@),
            },
            r matches Ok(d) ==> self.registry@.dom().contains(d@),
    {
        match device {
            Some(d) => if self.registry.get(&d).is_some() {
                Ok(d)
            } else {
                let mut e = "unknown device `".to_owned();
                e.append(&d);
                e.append("`");
                Err(e)
            },
            None => match self.registry.sole_device_id() {
                Some(d) => {
                    assert(set![d@].contains(d@));
                    Ok(d)
                },
                None => Err("no device specified and not exactly one is connected".to_owned()),
            },
        }
    }

    /// Whether a job is tied to a device: it names one, or one of its steps needs a phone.
    pub open spec fn needs_device(steps: Seq<Step>, device: Option<String>) -> bool {
        device is Some || exists|i: int|
            0 <= i < steps.len() && (#[trigger] steps[i]).kind.needs_phone()
    }

    /// Why a job cannot start, if it cannot: its device first, then the sound card.
    pub open spec fn job_error(self, steps: Seq<Step>, device: Option<String>) -> Option<Seq<char>> {
        if Self::needs_device(steps, device) && self.device_error(opt_view(device)) is Some {
            self.device_error(opt_view(device))
        } else if self.card_busy {
            Some("phone busy: a call or recording is already in progress"@)
        } else {
            None
        }
    }

    /// The state once a job has started: the card is held, and nothing is left of an earlier
    /// request to stop.
    pub open spec fn with_job(self) -> DaemonState {
        DaemonState {
            card_busy: true,
            job_cancel: false,
            job_force: false,
            job_abort: false,
            ..self
        }
    }

    /// Starts a job: finds its device (a job without call and message steps needs none) and takes
    /// the sound card.
    pub fn start_job(&mut self, steps: Vec<Step>, device: Option<String>) -> (r: Result<
        Plan,
        String,
    >)
        ensures
            match r {
                Ok(Plan::RunJob { device: d, steps: s, card }) => {
                    &&& old(self).job_error(steps@, device) is None
                    &&& s == steps
                    &&& if Self::needs_device(steps@, device) {
                        old(self).is_device(opt_view(device), d@)
                    } else {
                        d@ == local_device()
                    }
                    &&& *final(self) == old(self).with_job()
                },
                Ok(_) => false,
                Err(e) => old(self).job_error(steps@, device) == Some(e@) && *final(self) == *old(
                    self,
                ),
            },
    {
        let device_id = if device.is_some() || schema::job_needs_phone(&steps) {
            match self.resolve_device(device) {
                Ok(d) => d,
                Err(e) => {
                    return Err(e);
                },
            }
        } else {
            "local".to_owned()
        };
        match self.acquire_card() {
            Some(card) => {
                self.job_cancel = false;
                self.job_force = false;
                self.job_abort = false;
                Ok(Plan::RunJob { device: device_id, steps, card })
            },
            None => Err("phone busy: a call or recording is already in progress".to_owned()),
        }
    }

    /// Why a request is refused, if it is.
    pub open spec fn request_error(self, op: ControlOp) -> Option<Seq<char>> {
        match op {
            ControlOp::CallDial { device, .. } => self.device_error(Some(device@)),
            ControlOp::CallAnswer { device } => self.device_error(Some(device@)),
            ControlOp::CallHangup { device } => self.device_error(Some(device@)),
            ControlOp::CallReject { device, .. } => self.device_error(Some(device@)),
            ControlOp::SmsSend { device, .. } => self.device_error(Some(device@)),
            ControlOp::SmsList { device } => self.device_error(Some(device@)),
            ControlOp::CallList { device } => self.device_error(Some(device@)),
            ControlOp::SimsList { device } => self.device_error(Some(device@)),
            ControlOp::Mmi { device, .. } => self.device_error(Some(device@)),
            ControlOp::VoicemailSet { device, .. } => self.device_error(Some(device@)),
            ControlOp::JobRun { path, steps, device } => if path is Some {
                None
            } else if steps is Some {
                self.job_error(steps->0@, device)
            } else {
                Some("job.run requires `path` or `steps`"@)
            },
            ControlOp::AutoanswerServe { .. } => Some(
                "autoanswer.serve must be handled on its own connection"@,
            ),
            ControlOp::JobStatus { job_id } => Some(
                "job.status not tracked yet (job_id="@ + job_id@ + ")"@,
            ),
            _ => None,
        }
    }

    /// Whether `p` is what a request that is not refused asks for.
    pub open spec fn fits(self, op: ControlOp, p: Plan) -> bool {
        match (op, p) {
            (ControlOp::ServerInfo, Plan::Info) => true,
            (ControlOp::DevicesList, Plan::Answer(Reply::Devices(list))) => {
                &&& by_id(list@)
                &&& exists|keys: Seq<Seq<char>>| #[trigger] lists(self.registry@, keys, list@)
            },
            (
                ControlOp::CallDial { device, number, sim_sub_id },
                Plan::Command {
                    device: d,
                    action: Action::Dial { number: n, sim_sub_id: s },
                    reply: Reply::Dialed { number: m, sim_sub_id: t },
                },
            ) => d@ == device@ && n@ == number@ && m@ == number@ && s == sim_sub_id && t == sim_sub_id,
            (
                ControlOp::CallAnswer { device },
                Plan::Command { device: d, action: Action::Answer { call_id: None }, reply: Reply::Done },
            ) => d@ == device@,
            (
                ControlOp::CallHangup { device },
                Plan::Command { device: d, action: Action::Hangup { call_id: None }, reply: Reply::Done },
            ) => d@ == device@,
            (
                ControlOp::CallReject { device, drop },
                Plan::Command {
                    device: d,
                    action: Action::Reject { call_id: None, drop: x },
                    reply: Reply::Done,
                },
            ) => d@ == device@ && x == drop,
            (
                ControlOp::SmsSend { device, to, body },
                Plan::Command {
                    device: d,
                    action: Action::SendSms { to: t, body: b },
                    reply: Reply::Done,
                },
            ) => d@ == device@ && t == to && b == body,
            (
                ControlOp::SmsList { device },
                Plan::Ask { device: d, action: Action::ListSms { since: None }, query },
            ) => d@ == device@ && query == Query::Messages,
            (
                ControlOp::CallList { device },
                Plan::Ask { device: d, action: Action::ListCalls, query },
            ) => d@ == device@ && query == Query::Calls,
            (
                ControlOp::SimsList { device },
                Plan::Ask { device: d, action: Action::ListSims, query },
            ) => d@ == device@ && query == Query::Sims,
            (
                ControlOp::Mmi { device, code, sim_sub_id },
                Plan::Await {
                    device: d,
                    action: Action::Mmi { code: c, sim_sub_id: s },
                    wanted,
                    tries,
                },
            ) => d@ == device@ && c == code && s == sim_sub_id && wanted == Wanted::Mmi && tries == 30,
            (
                ControlOp::VoicemailSet { device, enabled, number, sim_sub_id },
                Plan::Await {
                    device: d,
                    action: Action::SetVoicemail { enabled: e, number: n, sim_sub_id: s },
                    wanted,
                    tries,
                },
            ) => d@ == device@ && e == enabled && n == number && s == sim_sub_id && wanted
                == Wanted::Voicemail && tries == 60,
            (ControlOp::AudioPlay { file, .. }, Plan::Play { file: f }) => f == file,
            (
                ControlOp::JobRun { path: Some(path), device, .. },
                Plan::LoadJob { path: p, device: d },
            ) => p == path && d == device,
            (
                ControlOp::JobRun { path: None, steps: Some(steps), device },
                Plan::RunJob { device: d, steps: s, .. },
            ) => s == steps && if Self::needs_device(steps@, device) {
                self.is_device(opt_view(device), d@)
            } else {
                d@ == local_device()
            },
            (
                ControlOp::JobCancel { force },
                Plan::Answer(Reply::Cancelled { force: f }),
            ) => f == force,
            _ => false,
        }
    }

    /// The state after a request that is not refused: a result that is waited for is forgotten
    /// first, a job holds the card, and a request to stop is noted (force implies cancel).
    pub open spec fn follows(self, op: ControlOp, next: DaemonState) -> bool {
        match op {
            ControlOp::Mmi { device, .. } => {
                &&& next.mmi_results@ == self.mmi_results@.remove(device@)
                &&& next == (DaemonState { mmi_results: next.mmi_results, ..self })
            },
            ControlOp::VoicemailSet { device, .. } => {
                &&& next.voicemail_results@ == self.voicemail_results@.remove(device@)
                &&& next == (DaemonState { voicemail_results: next.voicemail_results, ..self })
            },
            ControlOp::JobRun { path: None, .. } => next == self.with_job(),
            ControlOp::JobCancel { force } => next == (DaemonState {
                job_cancel: true,
                job_force: self.job_force || force,
                ..self
            }),
            _ => next == self,
        }
    }

    /// Decides what a control request asks for, or why it is refused.
    pub fn try_handle(&mut self, op: ControlOp) -> (r: Result<Plan, String>)
        ensures
            match r {
                Ok(p) => {
                    &&& old(self).request_error(op) is None
                    &&& old(self).fits(op, p)
                    &&& old(self).follows(op, *final(self))
                },
                Err(e) => old(self).request_error(op) == Some(e@) && *final(self) == *old(self),
            },
    {
        match op {
            ControlOp::ServerInfo => Ok(Plan::Info),
            ControlOp::DevicesList => Ok(Plan::Answer(Reply::Devices(self.registry.list()))),
            ControlOp::CallDial { device, number, sim_sub_id } => {
                match self.resolve_device(Some(device)) {
                    Ok(device) => Ok(
                        Plan::Command {
                            device,
                            action: Action::Dial { number: number.clone(), sim_sub_id },
                            reply: Reply::Dialed { number, sim_sub_id },
                        },
                    ),
                    Err(e) => Err(e),
                }
            },
            ControlOp::CallAnswer { device } => {
                match self.resolve_device(Some(device)) {
                    Ok(device) => Ok(
                        Plan::Command {
                            device,
                            action: Action::Answer { call_id: None },
                            reply: Reply::Done,
                        },
                    ),
                    Err(e) => Err(e),
                }
            },
            ControlOp::CallHangup { device } => {
                match self.resolve_device(Some(device)) {
                    Ok(device) => Ok(
                        Plan::Command {
                            device,
                            action: Action::Hangup { call_id: None },
                            reply: Reply::Done,
                        },
                    ),
                    Err(e) => Err(e),
                }
            },
            ControlOp::CallReject { device, drop } => {
                match self.resolve_device(Some(device)) {
                    Ok(device) => Ok(
                        Plan::Command {
                            device,
                            action: Action::Reject { call_id: None, drop },
                            reply: Reply::Done,
                        },
                    ),
                    Err(e) => Err(e),
                }
            },
            ControlOp::SmsSend { device, to, body } => {
                match self.resolve_device(Some(device)) {
                    Ok(device) => Ok(
                        Plan::Command {
                            device,
                            action: Action::SendSms { to, body },
                            reply: Reply::Done,
                        },
                    ),
                    Err(e) => Err(e),
                }
            },
            ControlOp::SmsList { device } => {
                match self.resolve_device(Some(device)) {
                    Ok(device) => Ok(
                        Plan::Ask {
                            device,
                            action: Action::ListSms { since: None },
                            query: Query::Messages,
                        },
                    ),
                    Err(e) => Err(e),
                }
            },
            ControlOp::CallList { device } => {
                match self.resolve_device(Some(device)) {
                    Ok(device) => Ok(
                        Plan::Ask { device, action: Action::ListCalls, query: Query::Calls },
                    ),
                    Err(e) => Err(e),
                }
            },
            ControlOp::SimsList { device } => {
                match self.resolve_device(Some(device)) {
                    Ok(device) => Ok(
                        Plan::Ask { device, action: Action::ListSims, query: Query::Sims },
                    ),
                    Err(e) => Err(e),
                }
            },
            ControlOp::Mmi { device, code, sim_sub_id } => {
                match self.resolve_device(Some(device)) {
                    Ok(device) => {
                        let _ = self.mmi_results.remove(&device);
                        Ok(
                            Plan::Await {
                                device,
                                action: Action::Mmi { code, sim_sub_id },
                                wanted: Wanted::Mmi,
                                tries: 30,
                            },
                        )
                    },
                    Err(e) => Err(e),
                }
            },
            ControlOp::VoicemailSet { device, enabled, number, sim_sub_id } => {
                match self.resolve_device(Some(device)) {
                    Ok(device) => {
                        let _ = self.voicemail_results.remove(&device);
                        Ok(
                            Plan::Await {
                                device,
                                action: Action::SetVoicemail { enabled, number, sim_sub_id },
                                wanted: Wanted::Voicemail,
                                tries: 60,
                            },
                        )
                    },
                    Err(e) => Err(e),
                }
            },
            ControlOp::AudioPlay { file, device } => Ok(Plan::Play { file }),
            ControlOp::JobRun { path, steps, device } => match path {
                Some(path) => Ok(Plan::LoadJob { path, device }),
                None => match steps {
                    Some(steps) => self.start_job(steps, device),
                    None => Err("job.run requires `path` or `steps`".to_owned()),
                },
            },
            ControlOp::JobCancel { force } => {
                if force {
                    self.job_force = true;
                }
                self.job_cancel = true;
                Ok(Plan::Answer(Reply::Cancelled { force }))
            },
            ControlOp::AutoanswerServe { numbers, path, device } => Err(
                "autoanswer.serve must be handled on its own connection".to_owned(),
            ),
            ControlOp::JobStatus { job_id } => {
                let mut e = "job.status not tracked yet (job_id=".to_owned();
                e.append(&job_id);
                e.append(")");
                Err(e)
            },
        }
    }

    /// Whether `r` is the list that a phone has reported.
    pub open spec fn collects(self, device: Seq<char>, query: Query, r: Reply) -> bool {
        match (query, r) {
            (Query::Messages, Reply::Messages(v)) => v@ == (if self.inbox@.dom().contains(device) {
                self.inbox@[device]@
            } else {
                Seq::empty()
            }),
            (Query::Calls, Reply::Calls(v)) => v@ == (if self.call_log@.dom().contains(device) {
                self.call_log@[device]@
            } else {
                Seq::empty()
            }),
            (Query::Sims, Reply::Sims(v)) => v@ == (if self.sims@.dom().contains(device) {
                self.sims@[device]@
            } else {
                Seq::empty()
            }),
            _ => false,
        }
    }

    /// The list that a phone has reported: what came last, or nothing.
    pub fn collect(&self, device: &str, query: Query) -> (r: Reply)
        ensures
            self.collects(device@, query, r),
    {
        match query {
            Query::Messages => Reply::Messages(
                match self.inbox.get(device) {
                    Some(v) => copy_messages(v),
                    None => Vec::new(),
                },
            ),
            Query::Calls => Reply::Calls(
                match self.call_log.get(device) {
                    Some(v) => copy_calls(v),
                    None => Vec::new(),
                },
            ),
            Query::Sims => Reply::Sims(
                match self.sims.get(device) {
                    Some(v) => copy_sims(v),
                    None => Vec::new(),
                },
            ),
        }
    }

    /// Whether `r` is the result that a phone has reported.
    pub open spec fn polls(self, device: Seq<char>, wanted: Wanted, r: Option<Reply>) -> bool {
        match (wanted, r) {
            (Wanted::Mmi, Some(Reply::Mmi(m))) => self.mmi_results@.dom().contains(device) && m
                == self.mmi_results@[device],
            (Wanted::Voicemail, Some(Reply::Voicemail(v))) =>
                self.voicemail_results@.dom().contains(device) && v
                    == self.voicemail_results@[device],
            (Wanted::Mmi, None) => !self.mmi_results@.dom().contains(device),
            (Wanted::Voicemail, None) => !self.voicemail_results@.dom().contains(device),
            _ => false,
        }
    }

    /// The result that a phone has reported, if it has.
    pub fn poll(&self, device: &str, wanted: Wanted) -> (r: Option<Reply>)
        ensures
            self.polls(device@, wanted, r),
    {
        match wanted {
            Wanted::Mmi => match self.mmi_results.get(device) {
                Some(m) => Some(Reply::Mmi(m.clone())),
                None => None,
            },
            Wanted::Voicemail => match self.voicemail_results.get(device) {
                Some(v) => Some(Reply::Voicemail(v.clone())),
                None => None,
            },
        }
    }
}

/// What is said when a result did not come in time.
pub fn await_error(wanted: Wanted) -> (r: String)
    ensures
        r@ == (match wanted {
            Wanted::Mmi => "no MMI response from phone (timed out after 15s)"@,
            Wanted::Voicemail => "no voicemail response from device (timed out after 30s)"@,
        }),
{
    match wanted {
        Wanted::Mmi => "no MMI response from phone (timed out after 15s)".to_owned(),
        Wanted::Voicemail => "no voicemail response from device (timed out after 30s)".to_owned(),
    }
}

fn copy_messages(v: &Vec<SmsRecord>) -> (r: Vec<SmsRecord>)
    ensures
        r@ == v@,
{
    let r = v.clone();
    assert(r@ =~= v@);
    r
}

fn copy_calls(v: &Vec<CallRecord>) -> (r: Vec<CallRecord>)
    ensures
        r@ == v@,
{
    let r = v.clone();
    assert(r@ =~= v@);
    r
}

fn copy_sims(v: &Vec<SimInfo>) -> (r: Vec<SimInfo>)
    ensures
        r@ == v@,
{
    let r = v.clone();
    assert(r@ =~= v@);
    r
}

/// A response on the control socket.
#[derive(Debug)]
pub struct ControlResponse {
    /// Echoes the request's id.
    pub id: String,
    /// Whether this is the last frame of its request.
    pub done: bool,
    pub ok: Option<bool>,
    pub error: Option<String>,
    pub data: Option<Reply>,
}

/// Whether `r` is the response to a request that came out as `result`.
pub open spec fn responds(id: Seq<char>, result: Result<Reply, String>, r: ControlResponse) -> bool {
    &&& r.id@ == id
    &&& r.done
    &&& match result {
        Ok(Reply::Done) => r.ok == Some(true) && r.error is None && r.data is None,
        Ok(reply) => r.ok == Some(true) && r.error is None && r.data == Some(reply),
        Err(e) => r.ok == Some(false) && r.error == Some(e) && r.data is None,
    }
}

/// The response to a request that came out as `result`. A failure becomes an error response; it
/// never ends the connection.
pub fn respond(id: &str, result: Result<Reply, String>) -> (r: ControlResponse)
    ensures
        responds(id@, result, r),
{
    let id = id.to_owned();
    match result {
        Ok(Reply::Done) => ControlResponse {
            id,
            done: true,
            ok: Some(true),
            error: None,
            data: None,
        },
        Ok(reply) => ControlResponse {
            id,
            done: true,
            ok: Some(true),
            error: None,
            data: Some(reply),
        },
        Err(e) => ControlResponse { id, done: true, ok: Some(false), error: Some(e), data: None },
    }
}

/// Whatever is asked, no phone gets a command that is not connected: the plan names a registered
/// device wherever it sends one.
pub proof fn law_commands_go_to_connected_devices(state: DaemonState, op: ControlOp, p: Plan)
    requires
        state.request_error(op) is None,
        state.fits(op, p),
    ensures
        match p {
            Plan::Command { device, .. } => state.registry@.dom().contains(device@),
            Plan::Ask { device, .. } => state.registry@.dom().contains(device@),
            Plan::Await { device, .. } => state.registry@.dom().contains(device@),
            _ => true,
        },
{
}

/// A request that goes to a phone becomes one command to the device that it names, and each field
/// of the command is the field of the request that it is named after. Nothing else is asked of a
/// phone.
pub proof fn law_a_phone_is_told_what_was_asked(state: DaemonState, op: ControlOp, p: Plan)
    requires
        state.request_error(op) is None,
        state.fits(op, p),
    ensures
        match op {
            ControlOp::CallDial { device, number, sim_sub_id } => {
                &&& p matches Plan::Command { device: d, action: Action::Dial {
                    number: n,
                    sim_sub_id: s,
                }, reply: Reply::Dialed { number: m, sim_sub_id: t } }
                &&& d@ == device@
                &&& n@ == number@
                &&& s == sim_sub_id
                &&& m@ == number@
                &&& t == sim_sub_id
            },
            ControlOp::CallAnswer { device } => {
                &&& p matches Plan::Command { device: d, action: Action::Answer { call_id }, reply }
                &&& d@ == device@
                &&& call_id is None
                &&& reply is Done
            },
            ControlOp::CallHangup { device } => {
                &&& p matches Plan::Command { device: d, action: Action::Hangup { call_id }, reply }
                &&& d@ == device@
                &&& call_id is None
                &&& reply is Done
            },
            ControlOp::CallReject { device, drop } => {
                &&& p matches Plan::Command { device: d, action: Action::Reject {
                    call_id,
                    drop: x,
                }, reply }
                &&& d@ == device@
                &&& call_id is None
                &&& x == drop
                &&& reply is Done
            },
            ControlOp::SmsSend { device, to, body } => {
                &&& p matches Plan::Command { device: d, action: Action::SendSms {
                    to: t,
                    body: b,
                }, reply }
                &&& d@ == device@
                &&& t@ == to@
                &&& b@ == body@
                &&& reply is Done
            },
            ControlOp::SmsList { device } => {
                &&& p matches Plan::Ask { device: d, action: Action::ListSms { since }, query }
                &&& d@ == device@
                &&& since is None
                &&& query is Messages
            },
            ControlOp::CallList { device } => {
                &&& p matches Plan::Ask { device: d, action, query }
                &&& d@ == device@
                &&& action is ListCalls
                &&& query is Calls
            },
            ControlOp::SimsList { device } => {
                &&& p matches Plan::Ask { device: d, action, query }
                &&& d@ == device@
                &&& action is ListSims
                &&& query is Sims
            },
            ControlOp::Mmi { device, code, sim_sub_id } => {
                &&& p matches Plan::Await { device: d, action: Action::Mmi {
                    code: c,
                    sim_sub_id: s,
                }, wanted, tries }
                &&& d@ == device@
                &&& c@ == code@
                &&& s == sim_sub_id
                &&& wanted is Mmi
                &&& tries * POLL_EVERY_MS == 15_000
            },
            ControlOp::VoicemailSet { device, enabled, number, sim_sub_id } => {
                &&& p matches Plan::Await { device: d, action: Action::SetVoicemail {
                    enabled: e,
                    number: n,
                    sim_sub_id: s,
                }, wanted, tries }
                &&& d@ == device@
                &&& e == enabled
                &&& n == number
                &&& s == sim_sub_id
                &&& wanted is Voicemail
                &&& tries * POLL_EVERY_MS == 30_000
            },
            _ => !(p is Command) && !(p is Ask) && !(p is Await),
        },
{
}

/// A request that goes to no phone is planned as it was asked: the version, every connected device
/// once and in order of its id, the file to play, the job at a path, the steps of a job, or the
/// stop of one.
pub proof fn law_a_local_request_is_planned_as_asked(state: DaemonState, op: ControlOp, p: Plan)
    requires
        state.request_error(op) is None,
        state.fits(op, p),
    ensures
        op is ServerInfo <==> p is Info,
        op is AudioPlay <==> p is Play,
        p is RunJob || p is LoadJob ==> op is JobRun,
        match op {
            ControlOp::DevicesList => {
                &&& p matches Plan::Answer(Reply::Devices(list))
                &&& by_id(list@)
                &&& exists|keys: Seq<Seq<char>>| #[trigger] lists(state.registry@, keys, list@)
            },
            ControlOp::AudioPlay { file, .. } => {
                &&& p matches Plan::Play { file: f }
                &&& f@ == file@
            },
            ControlOp::JobRun { path, steps, device } => match path {
                Some(path) => {
                    &&& p matches Plan::LoadJob { path: q, device: d }
                    &&& q@ == path@
                    &&& d == device
                },
                None => {
                    &&& steps is Some
                    &&& p matches Plan::RunJob { device: d, steps: t, .. }
                    &&& t@ == steps->0@
                    &&& match device {
                        Some(named) => d@ == named@,
                        None => if exists|i: int|
                            0 <= i < t@.len() && (#[trigger] t@[i]).kind.needs_phone() {
                            state.registry@.dom() == set![d@]
                        } else {
                            d@ == "local"@
                        },
                    }
                },
            },
            ControlOp::JobCancel { force } => {
                &&& p matches Plan::Answer(Reply::Cancelled { force: f })
                &&& f == force
            },
            _ => true,
        },
{
}

/// A request is refused for these reasons only: the device that it names is not connected; it
/// names none and there is not exactly one; a job is running; it gives neither a file nor steps;
/// or it is one that is not answered here.
pub proof fn law_a_request_is_refused_for_a_reason(state: DaemonState, op: ControlOp)
    ensures
        match op {
            ControlOp::CallDial { device, .. }
            | ControlOp::CallAnswer { device }
            | ControlOp::CallHangup { device }
            | ControlOp::CallReject { device, .. }
            | ControlOp::SmsSend { device, .. }
            | ControlOp::SmsList { device }
            | ControlOp::CallList { device }
            | ControlOp::SimsList { device }
            | ControlOp::Mmi { device, .. }
            | ControlOp::VoicemailSet { device, .. } => state.request_error(op)
                == if state.registry@.dom().contains(device@) {
                None
            } else {
                Some("unknown device `"@ + device@ + "`"@)
            },
            ControlOp::JobRun { path, steps, device } => match (path, steps) {
                (Some(_), _) => state.request_error(op) is None,
                (None, None) => state.request_error(op) == Some(
                    "job.run requires `path` or `steps`"@,
                ),
                (None, Some(steps)) => match device {
                    Some(d) => if !state.registry@.dom().contains(d@) {
                        state.request_error(op) == Some("unknown device `"@ + d@ + "`"@)
                    } else if state.card_busy {
                        state.request_error(op) == Some(
                            "phone busy: a call or recording is already in progress"@,
                        )
                    } else {
                        state.request_error(op) is None
                    },
                    None => if (exists|i: int|
                        0 <= i < steps@.len() && (#[trigger] steps@[i]).kind.needs_phone()) && !(
                    exists|k: Seq<char>| state.registry@.dom() == #[trigger] set![k]) {
                        state.request_error(op) == Some(
                            "no device specified and not exactly one is connected"@,
                        )
                    } else if state.card_busy {
                        state.request_error(op) == Some(
                            "phone busy: a call or recording is already in progress"@,
                        )
                    } else {
                        state.request_error(op) is None
                    },
                },
            },
            ControlOp::AutoanswerServe { .. } => state.request_error(op) == Some(
                "autoanswer.serve must be handled on its own connection"@,
            ),
            ControlOp::JobStatus { job_id } => state.request_error(op) == Some(
                "job.status not tracked yet (job_id="@ + job_id@ + ")"@,
            ),
            ControlOp::ServerInfo
            | ControlOp::DevicesList
            | ControlOp::AudioPlay { .. }
            | ControlOp::JobCancel { .. } => state.request_error(op) is None,
        },
{
}

/// What a request leaves behind. The result of an earlier code or voicemail request of the device is
/// forgotten, so that only a new one is told; a job that starts holds the card and has not been
/// stopped; a request to stop stops the running job, and only a forced one stops it within its
/// step. Whatever is asked, the registry, the configuration and the other tables stay.
pub proof fn law_a_request_leaves_the_rest(state: DaemonState, op: ControlOp, next: DaemonState)
    requires
        state.request_error(op) is None,
        state.follows(op, next),
    ensures
        next.registry == state.registry,
        next.config == state.config,
        next.config_dir == state.config_dir,
        next.serve_busy == state.serve_busy,
        next.instances == state.instances,
        next.pending_orphans == state.pending_orphans,
        next.overrides == state.overrides,
        next.serve_token == state.serve_token,
        next.inbox == state.inbox,
        next.call_log == state.call_log,
        next.sims == state.sims,
        match op {
            ControlOp::Mmi { device, .. } => {
                &&& !next.mmi_results@.dom().contains(device@)
                &&& forall|k: Seq<char>|
                    k != device@ ==> (next.mmi_results@.dom().contains(k)
                        <==> #[trigger] state.mmi_results@.dom().contains(k))
                &&& forall|k: Seq<char>|
                    k != device@ && state.mmi_results@.dom().contains(k)
                        ==> #[trigger] next.mmi_results@[k] == state.mmi_results@[k]
            },
            _ => next.mmi_results == state.mmi_results,
        },
        match op {
            ControlOp::VoicemailSet { device, .. } => {
                &&& !next.voicemail_results@.dom().contains(device@)
                &&& forall|k: Seq<char>|
                    k != device@ ==> (next.voicemail_results@.dom().contains(k)
                        <==> #[trigger] state.voicemail_results@.dom().contains(k))
                &&& forall|k: Seq<char>|
                    k != device@ && state.voicemail_results@.dom().contains(k)
                        ==> #[trigger] next.voicemail_results@[k] == state.voicemail_results@[k]
            },
            _ => next.voicemail_results == state.voicemail_results,
        },
        match op {
            ControlOp::JobRun { path, .. } => if path is None {
                next.card_busy && !next.job_cancel && !next.job_force && !next.job_abort
            } else {
                next.card_busy == state.card_busy && next.job_cancel == state.job_cancel
                    && next.job_force == state.job_force && next.job_abort == state.job_abort
            },
            ControlOp::JobCancel { force } => next.card_busy == state.card_busy && next.job_cancel
                && next.job_force == (force || state.job_force) && next.job_abort == state.job_abort,
            _ => next.card_busy == state.card_busy && next.job_cancel == state.job_cancel
                && next.job_force == state.job_force && next.job_abort == state.job_abort,
        },
{
}

/// A number with a live override is answered with the override's job, on its device alone where it
/// names one; else the configuration decides; else it rings.
pub proof fn law_a_live_override_wins(state: DaemonState, number: Seq<char>)
    ensures
        match state.handling(number) {
            Some(Handling::Job { path, device }) => if state.overrides@.dom().contains(number) {
                &&& path == state.overrides@[number].path@
                &&& match state.overrides@[number].device {
                    Some(d) => device == Some(d@),
                    None => device is None,
                }
            } else {
                &&& state.config.autoanswer@.dom().contains(number)
                &&& state.config.autoanswer@[number] is Some
                &&& path == resolved_under(
                    opt_view(state.config_dir),
                    state.config.autoanswer@[number]->0@,
                )
                &&& device is None
            },
            Some(Handling::AnswerOnly) => {
                &&& !state.overrides@.dom().contains(number)
                &&& state.config.autoanswer@.dom().contains(number)
                &&& state.config.autoanswer@[number] is None
            },
            None => !state.overrides@.dom().contains(number)
                && !state.config.autoanswer@.dom().contains(number),
        },
{
}

/// What an inbox keeps are its most recent texts, in the order in which they came.
pub proof fn law_the_inbox_keeps_the_recent(v: Seq<SmsRecord>, rec: SmsRecord, i: int)
    requires
        0 <= i < with_recent(v, rec).len(),
    ensures
        with_recent(v, rec).len() == if v.len() < 200 {
            v.len() + 1
        } else {
            200
        },
        with_recent(v, rec)[with_recent(v, rec).len() - 1 - i] == if i == 0 {
            rec
        } else {
            v[v.len() - i]
        },
{
}

/// While a job holds the card, no other one starts.
pub proof fn law_one_job_at_a_time(state: DaemonState, steps: Seq<Step>, device: Option<String>)
    ensures
        state.with_job().job_error(steps, device) is Some,
{
}

// ---------------------------------------------------------------------------
// Audio processes that a killed daemon left behind
// ---------------------------------------------------------------------------

/// A device named by a setting: its trimmed name, where there is one.
pub open spec fn named_device(setting: Option<String>) -> Option<Seq<char>> {
    match setting {
        Some(s) => if trimmed(s@).len() > 0 {
            Some(trimmed(s@))
        } else {
            None
        },
        None => None,
    }
}

/// The device that a command names: the argument behind `coreaudio`.
pub open spec fn command_device(cmd: Option<Vec<String>>) -> Option<Seq<char>> {
    match cmd {
        Some(v) => {
            let args = views(v@);
            let i = first_of(args, "coreaudio"@) as int;
            if i + 1 < args.len() && trimmed(args[i + 1]).len() > 0 {
                Some(trimmed(args[i + 1]))
            } else {
                None
            }
        },
        None => None,
    }
}

/// The tool that a command runs: the last part of its first argument.
pub open spec fn command_tool(cmd: Option<Vec<String>>) -> Option<Seq<char>> {
    match cmd {
        Some(v) => if v@.len() > 0 && trimmed(last_piece(v@[0]@, '/')).len() > 0 {
            Some(trimmed(last_piece(v@[0]@, '/')))
        } else {
            None
        },
        None => None,
    }
}

/// Whether `d` is one of the devices that the settings name.
pub open spec fn is_our_device(cfg: AudioConfig, d: Seq<char>) -> bool {
    ||| named_device(cfg.capture_device) == Some(d)
    ||| named_device(cfg.playback_device) == Some(d)
    ||| command_device(cfg.capture_cmd) == Some(d)
    ||| command_device(cfg.playback_cmd) == Some(d)
}

/// Whether `t` is one of the tools that the settings pin.
pub open spec fn is_our_tool(cfg: AudioConfig, t: Seq<char>) -> bool {
    ||| command_tool(cfg.capture_cmd) == Some(t)
    ||| command_tool(cfg.playback_cmd) == Some(t)
}

fn device_of_setting(setting: &Option<String>) -> (r: Option<String>)
    ensures
        opt_view(r) == named_device(*setting),
{
    match setting {
        Some(s) => {
            let t = text::trim(s);
            if t.is_empty() {
                None
            } else {
                Some(t.to_owned())
            }
        },
        None => None,
    }
}

fn device_of_command(cmd: &Option<Vec<String>>) -> (r: Option<String>)
    ensures
        opt_view(r) == command_device(*cmd),
{
    match cmd {
        Some(v) => {
            let mut i: usize = 0;
            while i < v.len() && !text::same(&v[i], "coreaudio")
                invariant
                    i <= v.len(),
                    forall|j: int| 0 <= j < i ==> views(v@)[j] != "coreaudio"@,
                decreases v.len() - i,
            {
                i += 1;
            }
            proof {
                table::lemma_first_of(views(v@), "coreaudio"@, i as int);
            }
            if i < v.len() && i + 1 < v.len() {
                let t = text::trim(&v[i + 1]);
                if t.is_empty() {
                    None
                } else {
                    Some(t.to_owned())
                }
            } else {
                None
            }
        },
        None => None,
    }
}

fn tool_of_command(cmd: &Option<Vec<String>>) -> (r: Option<String>)
    ensures
        opt_view(r) == command_tool(*cmd),
{
    match cmd {
        Some(v) => if v.len() > 0 {
            let base = text::after_last(&v[0], '/');
            let t = text::trim(&base);
            if t.is_empty() {
                None
            } else {
                Some(t.to_owned())
            }
        } else {
            None
        },
        None => None,
    }
}

fn put_found(list: &mut Vec<String>, found: Option<String>)
    requires
        in_order(views(old(list)@)),
    ensures
        in_order(views(final(list)@)),
        forall|k: Seq<char>|
            views(final(list)@).contains(k) <==> (views(old(list)@).contains(k) || opt_view(found)
                == Some(k)),
{
    match found {
        Some(s) => table::put_in_order(list, s),
        None => {},
    }
}

/// What tells a process on our sound card: the devices that the settings name and the tools that
/// they pin, each in order and once.
pub fn audio_match(cfg: &AudioConfig) -> (r: (Vec<String>, Vec<String>))
    ensures
        in_order(views(r.0@)),
        in_order(views(r.1@)),
        forall|d: Seq<char>| views(r.0@).contains(d) <==> is_our_device(*cfg, d),
        forall|t: Seq<char>| views(r.1@).contains(t) <==> is_our_tool(*cfg, t),
{
    let mut devices: Vec<String> = Vec::new();
    let mut tools: Vec<String> = Vec::new();
    put_found(&mut devices, device_of_setting(&cfg.capture_device));
    put_found(&mut devices, device_of_setting(&cfg.playback_device));
    put_found(&mut devices, device_of_command(&cfg.capture_cmd));
    put_found(&mut devices, device_of_command(&cfg.playback_cmd));
    put_found(&mut tools, tool_of_command(&cfg.capture_cmd));
    put_found(&mut tools, tool_of_command(&cfg.playback_cmd));
    (devices, tools)
}

/// The name of the program that a command line runs.
pub open spec fn program_of(cmdline: Seq<char>) -> Seq<char> {
    if words(cmdline).len() > 0 {
        last_piece(words(cmdline)[0], '/')
    } else {
        Seq::empty()
    }
}

/// Whether a process is to be killed: its command line names one of our devices, and its program
/// is one of our tools where any is pinned.
pub open spec fn is_stray(
    cmdline: Seq<char>,
    devices: Seq<Seq<char>>,
    tools: Seq<Seq<char>>,
) -> bool {
    &&& cmdline.len() > 0
    &&& exists|i: int| 0 <= i < devices.len() && contains_text(cmdline, #[trigger] devices[i])
    &&& tools.len() == 0 || tools.contains(program_of(cmdline))
}

/// Whether a process with this command line is to be killed.
pub fn should_reap(cmdline: &str, devices: &[String], tools: &[String]) -> (r: bool)
    ensures
        r == is_stray(cmdline@, views(devices@), views(tools@)),
{
    if cmdline.is_empty() {
        return false;
    }
    let mut named = false;
    let mut i: usize = 0;
    while i < devices.len()
        invariant
            i <= devices.len(),
            named <==> exists|j: int|
                0 <= j < i && contains_text(cmdline@, #[trigger] views(devices@)[j]),
        decreases devices.len() - i,
    {
        if text::contains(cmdline, &devices[i]) {
            proof {
                assert(contains_text(cmdline@, views(devices@)[i as int]));
            }
            named = true;
        }
        i += 1;
    }
    if !named {
        return false;
    }
    if tools.len() == 0 {
        return true;
    }
    let ws = text::split_words(cmdline);
    proof {
        assert(views(ws@).len() == ws@.len());
    }
    let program = if ws.len() > 0 {
        text::after_last(&ws[0], '/')
    } else {
        String::new()
    };
    proof {
        assert(program@ =~= program_of(cmdline@));
    }
    let mut t: usize = 0;
    while t < tools.len()
        invariant
            t <= tools.len(),
            forall|j: int| 0 <= j < t ==> #[trigger] views(tools@)[j] != program@,
            program@ == program_of(cmdline@),
            cmdline@.len() > 0,
            tools@.len() > 0,
            exists|j: int|
                0 <= j < devices@.len() && contains_text(cmdline@, #[trigger] views(devices@)[j]),
        decreases tools.len() - t,
    {
        if text::same(&tools[t], &program) {
            proof {
                assert(views(tools@)[t as int] == program@);
            }
            return true;
        }
        t += 1;
    }
    false
}

/// Whether a listing of process numbers, one per line, holds `pid`.
pub open spec fn lists_pid(listing: Seq<char>, pid: int) -> bool {
    exists|i: int|
        0 <= i < lines(listing).len() && parsed_between(
            trimmed(#[trigger] lines(listing)[i]),
            i32::MIN as int,
            i32::MAX as int,
        ) == Some(pid)
}

/// The process numbers of some listings, in order and each once. Lines that hold none are passed
/// over.
pub fn candidate_pids(listings: &Vec<String>) -> (r: Vec<i32>)
    ensures
        forall|i: int, j: int| 0 <= i < j < r@.len() ==> r@[i] < r@[j],
        forall|p: i32|
            r@.contains(p) <==> exists|k: int|
                0 <= k < listings@.len() && lists_pid((#[trigger] listings@[k])@, p as int),
{
    let mut out: Vec<i32> = Vec::new();
    let mut k: usize = 0;
    while k < listings.len()
        invariant
            k <= listings.len(),
            forall|i: int, j: int| 0 <= i < j < out@.len() ==> out@[i] < out@[j],
            forall|p: i32|
                out@.contains(p) <==> exists|m: int|
                    0 <= m < k && lists_pid((#[trigger] listings@[m])@, p as int),
        decreases listings.len() - k,
    {
        let ls = text::split_lines(&listings[k]);
        let ghost all = lines(listings@[k as int]@);
        let ghost had = out@;
        let mut i: usize = 0;
        while i < ls.len()
            invariant
                i <= ls.len(),
                views(ls@) == all,
                forall|i: int, j: int| 0 <= i < j < out@.len() ==> out@[i] < out@[j],
                forall|p: i32| #[trigger]
                    out@.contains(p) <==> (had.contains(p) || exists|m: int|
                        0 <= m < i && parsed_between(
                            trimmed(#[trigger] all[m]),
                            i32::MIN as int,
                            i32::MAX as int,
                        ) == Some(p as int)),
            decreases ls.len() - i,
        {
            let ghost before = out@;
            let found = text::parse_i32(text::trim(&ls[i]));
            proof {
                assert(all[i as int] == ls@[i as int]@);
            }
            match found {
                Some(p) => put_number(&mut out, p),
                None => {},
            }
            proof {
                assert forall|p: i32| #[trigger] out@.contains(p) <==> (had.contains(p) || exists|m: int|
                    0 <= m < i + 1 && parsed_between(
                        trimmed(#[trigger] all[m]),
                        i32::MIN as int,
                        i32::MAX as int,
                    ) == Some(p as int)) by {
                    assert(out@.contains(p) <==> (before.contains(p) || found == Some(p)));
                    if before.contains(p) && !had.contains(p) {
                        let m = choose|m: int|
                            0 <= m < i && parsed_between(
                                trimmed(#[trigger] all[m]),
                                i32::MIN as int,
                                i32::MAX as int,
                            ) == Some(p as int);
                        assert(0 <= m < i + 1);
                    }
                }
            }
            i += 1;
        }
        proof {
            assert forall|p: i32| out@.contains(p) <==> exists|m: int|
                0 <= m < k + 1 && lists_pid((#[trigger] listings@[m])@, p as int) by {
                if had.contains(p) {
                    let m = choose|m: int|
                        0 <= m < k && lists_pid((#[trigger] listings@[m])@, p as int);
                    assert(0 <= m < k + 1);
                }
                if lists_pid(listings@[k as int]@, p as int) {
                    assert(out@.contains(p));
                }
                if exists|m: int| 0 <= m < k + 1 && lists_pid((#[trigger] listings@[m])@, p as int) {
                    let m = choose|m: int|
                        0 <= m < k + 1 && lists_pid((#[trigger] listings@[m])@, p as int);
                    if m < k {
                        assert(had.contains(p));
                    }
                    assert(out@.contains(p));
                }
            }
        }
        k += 1;
    }
    out
}

fn put_number(list: &mut Vec<i32>, n: i32)
    requires
        forall|i: int, j: int| 0 <= i < j < old(list)@.len() ==> old(list)@[i] < old(list)@[j],
    ensures
        forall|i: int, j: int| 0 <= i < j < final(list)@.len() ==> final(list)@[i] < final(list)@[j],
        forall|p: i32| final(list)@.contains(p) <==> (old(list)@.contains(p) || p == n),
{
    let ghost had = list@;
    let mut i: usize = 0;
    while i < list.len() && list[i] < n
        invariant
            i <= list@.len(),
            list@ == had,
            forall|j: int| 0 <= j < i ==> had[j] < n,
        decreases list.len() - i,
    {
        i += 1;
    }
    if i < list.len() && list[i] == n {
        assert(had[i as int] == n);
        return ;
    }
    list.insert(i, n);
    proof {
        let now = list@;
        assert(now == had.insert(i as int, n));
        assert forall|p: i32| #[trigger] now.contains(p) <==> (had.contains(p) || p == n) by {
            if had.contains(p) {
                let a = choose|a: int| 0 <= a < had.len() && had[a] == p;
                let b = if a < i {
                    a
                } else {
                    a + 1
                };
                assert(now[b] == p);
            }
            if now.contains(p) {
                let a = choose|a: int| 0 <= a < now.len() && now[a] == p;
                if a < i {
                    assert(had[a] == p);
                } else if a > i {
                    assert(had[a - 1] == p);
                }
            }
            assert(now[i as int] == n);
        }
    }
}

/// Which terminal multiplexer the environment tells of, if any.
pub open spec fn multiplexer(
    tmux_set: bool,
    term_program: Seq<char>,
    sty_set: bool,
    zellij_set: bool,
) -> Option<Seq<char>> {
    if tmux_set || term_program == "tmux"@ {
        Some("tmux"@)
    } else if sty_set {
        Some("screen"@)
    } else if zellij_set {
        Some("zellij"@)
    } else {
        None
    }
}

/// Which terminal multiplexer the environment tells of, if any.
pub fn multiplexer_name(
    tmux_set: bool,
    term_program: &str,
    sty_set: bool,
    zellij_set: bool,
) -> (r: Option<&'static str>)
    ensures
        (match r {
            Some(s) => Some(s@),
            None => None,
        }) == multiplexer(tmux_set, term_program@, sty_set, zellij_set),
{
    if tmux_set || text::same(term_program, "tmux") {
        Some("tmux")
    } else if sty_set {
        Some("screen")
    } else if zellij_set {
        Some("zellij")
    } else {
        None
    }
}

// ---------------------------------------------------------------------------
// Jobs and their recordings
// ---------------------------------------------------------------------------

/// A step of a job file, its audio file resolved under the directory of the job.
pub open spec fn resolved_step(base: Seq<char>, step: Step, r: Step) -> bool {
    match step.kind {
        StepKind::AudioPlay { file } => {
            &&& r.kind matches StepKind::AudioPlay { file: f }
            &&& f@ == resolved_under(Some(base), file@)
            &&& r.description == step.description
            &&& r.id == step.id
        },
        _ => r == step,
    }
}

/// The steps of the job file at `path`, with relative audio files resolved under the file's own
/// directory, so that the job works wherever the daemon runs.
pub fn resolve_job_paths(path: &str, job: Vec<Step>) -> (r: Vec<Step>)
    ensures
        r@.len() == job@.len(),
        match parent_of(path@) {
            Some(base) => if base.len() > 0 {
                forall|i: int| 0 <= i < job@.len() ==> resolved_step(base, job@[i], #[trigger] r@[i])
            } else {
                r == job
            },
            None => r == job,
        },
{
    let base = match paths::parent(path) {
        Some(b) => if b.as_str().is_empty() {
            return job;
        } else {
            b
        },
        None => {
            return job;
        },
    };
    let ghost all = job@;
    let mut rest = job;
    let mut out: Vec<Step> = Vec::new();
    proof {
        assert(all.skip(0) =~= all);
    }
    while rest.len() > 0
        invariant
            out@.len() <= all.len(),
            rest@ == all.skip(out@.len() as int),
            forall|i: int| 0 <= i < out@.len() ==> resolved_step(base@, all[i], #[trigger] out@[i]),
        decreases rest.len(),
    {
        let ghost n = out@.len() as int;
        let step = rest.remove(0);
        proof {
            assert(step == all[n]);
            assert(rest@ =~= all.skip(n + 1));
        }
        let step = match step.kind {
            StepKind::AudioPlay { file } => {
                let file = paths::resolve_under(Some(base.as_str()), &file);
                Step { kind: StepKind::AudioPlay { file }, description: step.description, id: step.id }
            },
            kind => Step { kind, description: step.description, id: step.id },
        };
        out.push(step);
    }
    out
}

/// How a job is recorded.
#[derive(Debug)]
pub struct RecordPlan {
    /// Directory of the recording.
    pub dir: String,
    /// Name of the session, with which its files' names begin.
    pub session: String,
    /// Whether to write the mixed file too.
    pub mix: bool,
    /// Whether tx belongs in the mixed file's left channel.
    pub tx_left: bool,
}

impl DaemonState {
    /// Whether `r` is how a job that starts at `now_ms` is recorded.
    pub open spec fn records(self, now_ms: i64, r: Option<RecordPlan>) -> bool {
        match (self.config.audio.record_dir, r) {
            (Some(d), Some(p)) => {
                &&& p.dir@ == resolved_under(opt_view(self.config_dir), d@)
                &&& p.session@ == "dialf-job-"@ + signed_decimal(now_ms as int)
                &&& p.mix == self.config.audio.mix_recording
                &&& p.tx_left == (self.config.audio.mix_channels == MixChannels::TxRx)
            },
            (None, None) => true,
            _ => false,
        }
    }

    /// How a job that starts at `now_ms` is recorded. A relative directory lies under that of the
    /// configuration file; without a directory nothing is recorded.
    pub fn record_plan(&self, now_ms: i64) -> (r: Option<RecordPlan>)
        ensures
            self.records(now_ms, r),
    {
        match &self.config.audio.record_dir {
            Some(d) => {
                let base = match &self.config_dir {
                    Some(b) => Some(b.as_str()),
                    None => None,
                };
                let mut session = "dialf-job-".to_owned();
                session.append(&text::signed_decimal_of(now_ms));
                Some(
                    RecordPlan {
                        dir: paths::resolve_under(base, d),
                        session,
                        mix: self.config.audio.mix_recording,
                        tx_left: self.config.audio.mix_channels.tx_left(),
                    },
                )
            },
            None => None,
        }
    }
}

// ---------------------------------------------------------------------------
// About the daemon
// ---------------------------------------------------------------------------

/// What the daemon tells of itself.
#[derive(Debug)]
pub struct ServerInfo {
    pub version: String,
    /// The version of the voice detection, or that there is only a stub of it.
    pub ten_vad: String,
    /// Whether the microphone may be used.
    pub microphone: &'static str,
    pub mdns: AdvertReport,
}

/// What the daemon tells of itself, given its version, that of the voice detection, what the
/// system says of the microphone, and what is reported of the advertisement.
pub fn server_info(version: &str, ten_vad: Option<String>, gate: Gate, mdns: AdvertReport) -> (r:
    ServerInfo)
    ensures
        r.version@ == version@,
        r.ten_vad@ == (match ten_vad {
            Some(v) => v@,
            None => "stub"@,
        }),
        r.microphone@ == gate_label(gate),
        r.mdns == mdns,
{
    ServerInfo {
        version: version.to_owned(),
        ten_vad: match ten_vad {
            Some(v) => v,
            None => "stub".to_owned(),
        },
        microphone: mic_permission::status_label(gate),
        mdns,
    }
}

// ---------------------------------------------------------------------------
// Call markers
// ---------------------------------------------------------------------------
//
// A marker notes that the daemon is driving a call, so that a call that outlives a crash of the
// daemon is hung up. There is one file per device, beside the control socket. A call that a person
// makes by hand never gets one.

/// A device's name with everything but letters, digits, `-` and `_` replaced.
pub open spec fn safe_char(c: char) -> char {
    if 'a' <= c <= 'z' || 'A' <= c <= 'Z' || '0' <= c <= '9' || c == '-' || c == '_' {
        c
    } else {
        '_'
    }
}

/// The directory of call markers: beside the control socket.
pub fn call_marker_dir(control_socket: &str, temp_dir: &str) -> (r: String)
    ensures
        r@ == inside(
            match parent_of(control_socket@) {
                Some(d) => d,
                None => temp_dir@,
            },
            "dialf-callmarks"@,
        ),
{
    match paths::parent(control_socket) {
        Some(d) => join_name(&d, "dialf-callmarks"),
        None => join_name(temp_dir, "dialf-callmarks"),
    }
}

/// The marker file of a device.
pub fn call_marker_file(dir: &str, device_id: &str) -> (r: String)
    ensures
        r@ == inside(dir@, "call-"@ + device_id@.map_values(|c: char| safe_char(c))),
{
    let cs = text::chars_of(device_id);
    let ghost all = device_id@.map_values(|c: char| safe_char(c));
    let mut name = "call-".to_owned();
    let mut i: usize = 0;
    proof {
        assert(name@ =~= "call-"@ + all.take(0));
    }
    while i < cs.len()
        invariant
            i <= cs.len(),
            cs@ == device_id@,
            all == device_id@.map_values(|c: char| safe_char(c)),
            name@ == "call-"@ + all.take(i as int),
        decreases cs.len() - i,
    {
        let c: char = cs[i];
        let safe = ('a' <= c && c <= 'z') || ('A' <= c && c <= 'Z') || ('0' <= c && c <= '9') || c
            == '-' || c == '_';
        name.push(if safe { c } else { '_' });
        i += 1;
        assert(name@ =~= "call-"@ + all.take(i as int));
    }
    proof {
        assert(all.take(i as int) =~= all);
    }
    join_name(dir, &name)
}

/// What a marker file holds: the device and the call, a line each.
pub open spec fn marker(device_id: Seq<char>, call_id: Seq<char>) -> Seq<char> {
    device_id + "\n"@ + call_id
}

/// The device and the call that a marker file names.
pub open spec fn marked(content: Seq<char>) -> Option<(Seq<char>, Seq<char>)> {
    if lines(content).len() >= 2 {
        Some((lines(content)[0], lines(content)[1]))
    } else {
        None
    }
}

/// The content of a call marker.
pub fn write_call_marker(device_id: &str, call_id: &str) -> (r: String)
    ensures
        r@ == marker(device_id@, call_id@),
{
    let mut s = device_id.to_owned();
    s.append("\n");
    s.append(call_id);
    s
}

/// The calls that some marker files name, by device: the last file about a device counts, and
/// files that name no call are passed over.
pub open spec fn marked_calls(contents: Seq<Seq<char>>) -> Map<Seq<char>, Seq<char>>
    decreases contents.len(),
{
    if contents.len() == 0 {
        Map::empty()
    } else {
        let rest = marked_calls(contents.drop_last());
        match marked(contents.last()) {
            Some((device, call)) => rest.insert(device, call),
            None => rest,
        }
    }
}

/// The calls that the marker files of an earlier run name, by device.
pub fn load_call_markers(contents: &Vec<String>) -> (r: Table<String>)
    ensures
        text_table(r@) == marked_calls(views(contents@)),
{
    let mut out: Table<String> = Table::new();
    let mut i: usize = 0;
    proof {
        assert(text_table(out@) =~= Map::<Seq<char>, Seq<char>>::empty());
    }
    while i < contents.len()
        invariant
            i <= contents.len(),
            text_table(out@) == marked_calls(views(contents@).take(i as int)),
        decreases contents.len() - i,
    {
        let ghost head = views(contents@).take(i + 1);
        proof {
            assert(head.drop_last() =~= views(contents@).take(i as int));
            assert(head.last() == contents@[i as int]@);
        }
        let ls = text::split_lines(&contents[i]);
        proof {
            assert(views(ls@).len() == ls@.len());
        }
        if ls.len() >= 2 {
            let ghost was = out@;
            let call = ls[1].clone();
            proof {
                assert(views(ls@)[0] == ls@[0]@ && views(ls@)[1] == call@);
                assert(text_table(was.insert(ls@[0]@, call)) =~= text_table(was).insert(
                    ls@[0]@,
                    call@,
                ));
            }
            out.insert(ls[0].clone(), call);
        }
        i += 1;
    }
    proof {
        assert(views(contents@).take(i as int) =~= views(contents@));
    }
    out
}

/// A marker gives back the device and the call that it was written for, unless they hold line
/// ends or the call is empty.
pub proof fn law_call_markers_round_trip(device_id: Seq<char>, call_id: Seq<char>)
    requires
        forall|i: int| 0 <= i < device_id.len() ==> device_id[i] != '\n',
        device_id.len() > 0 ==> device_id.last() != '\r',
        forall|i: int| 0 <= i < call_id.len() ==> call_id[i] != '\n',
        call_id.len() > 0,
    ensures
        marked(marker(device_id, call_id)) == Some((device_id, call_id)),
{
    reveal_strlit("\n");
    let first = device_id.push('\n');
    assert(marker(device_id, call_id) =~= first + call_id);
    text::lemma_lines_concat(first, call_id);
    text::lemma_one_line(device_id);
    text::lemma_first_at(call_id, '\n', call_id.len() as int);
    assert(lines(call_id) =~= seq![call_id]);
    assert(lines(first + call_id) =~= seq![device_id, call_id]);
}

/// A process is killed only where its command line names one of our devices and, where tools are
/// pinned, runs one of them; nothing is killed where no device is named.
pub proof fn law_only_our_strays_are_killed(
    cmdline: Seq<char>,
    devices: Seq<Seq<char>>,
    tools: Seq<Seq<char>>,
    i: int,
    at: int,
)
    ensures
        is_stray(cmdline, devices, tools) ==> exists|k: int|
            0 <= k < devices.len() && contains_text(cmdline, #[trigger] devices[k]),
        is_stray(cmdline, devices, tools) && tools.len() > 0 ==> tools.contains(program_of(cmdline)),
        devices.len() == 0 ==> !is_stray(cmdline, devices, tools),
        0 <= i < devices.len() && text::occurs_at(cmdline, devices[i], at) && cmdline.len() > 0 && (
        tools.len() == 0 || tools.contains(program_of(cmdline))) ==> is_stray(cmdline, devices, tools),
{
    if 0 <= i < devices.len() && text::occurs_at(cmdline, devices[i], at) {
        assert(contains_text(cmdline, devices[i]));
    }
}

/// The program of a command line is the name of its first word, without the directories before it.
pub proof fn law_a_program_is_the_first_word(cmdline: Seq<char>, dir: Seq<char>, name: Seq<char>)
    requires
        words(cmdline).len() > 0,
        forall|k: int| 0 <= k < name.len() ==> name[k] != '/',
    ensures
        words(cmdline)[0] == name ==> program_of(cmdline) == name,
        words(cmdline)[0] == dir + seq!['/'] + name ==> program_of(cmdline) == name,
{
    text::lemma_first_at(name, '/', name.len() as int);
    assert(text::pieces(name, '/') =~= seq![name]);
    text::lemma_pieces_concat(dir, name, '/');
    text::lemma_pieces_not_empty(dir, '/');
    assert(text::pieces(dir + seq!['/'] + name, '/').last() == name);
}

/// Our devices are those that the settings name, for capture or for playback, and those that the
/// commands name behind the sound system's word; our tools are the programs of the commands.
pub proof fn law_our_devices_are_named_in_the_settings(cfg: AudioConfig, d: Seq<char>)
    ensures
        cfg.capture_device is Some && trimmed(cfg.capture_device->0@) == d && d.len() > 0
            ==> is_our_device(cfg, d),
        cfg.playback_device is Some && trimmed(cfg.playback_device->0@) == d && d.len() > 0
            ==> is_our_device(cfg, d),
        cfg.capture_device is None && cfg.playback_device is None && cfg.capture_cmd is None
            && cfg.playback_cmd is None ==> !is_our_device(cfg, d) && !is_our_tool(cfg, d),
        is_our_device(cfg, d) || is_our_tool(cfg, d) ==> d.len() > 0,
        cfg.capture_cmd is None && cfg.playback_cmd is None ==> !is_our_tool(cfg, d),
{
}

/// The device of a command is the argument behind the sound system's word, and its tool the last
/// part of its first argument.
pub proof fn law_a_command_names_its_device_and_tool(cmd: Vec<String>, i: int)
    requires
        0 <= i,
        i + 1 < cmd@.len(),
        cmd@[i]@ == "coreaudio"@,
        forall|j: int| 0 <= j < i ==> (#[trigger] cmd@[j])@ != "coreaudio"@,
    ensures
        trimmed(cmd@[i + 1]@).len() > 0 ==> command_device(Some(cmd)) == Some(trimmed(cmd@[i + 1]@)),
        trimmed(last_piece(cmd@[0]@, '/')).len() > 0 ==> command_tool(Some(cmd)) == Some(
            trimmed(last_piece(cmd@[0]@, '/')),
        ),
        command_device(None) is None,
        command_tool(None) is None,
{
    let args = views(cmd@);
    assert forall|j: int| 0 <= j < i implies args[j] != "coreaudio"@ by {
        assert(args[j] == cmd@[j]@);
    }
    assert(args[i] == cmd@[i]@);
    table::lemma_first_of(args, "coreaudio"@, i);
    assert(args[i + 1] == cmd@[i + 1]@);
}

/// The first multiplexer that the environment tells of is named.
pub proof fn law_the_environment_tells_of_its_multiplexer(
    term: Seq<char>,
    sty: bool,
    zellij: bool,
)
    ensures
        multiplexer(true, term, sty, zellij) == Some("tmux"@),
        multiplexer(false, "tmux"@, sty, zellij) == Some("tmux"@),
        term != "tmux"@ ==> multiplexer(false, term, true, zellij) == Some("screen"@),
        term != "tmux"@ ==> multiplexer(false, term, false, true) == Some("zellij"@),
        term != "tmux"@ ==> multiplexer(false, term, false, false) is None,
{
}

/// A step of a job file keeps everything but the place of the file that it plays, which is looked
/// for in the job's own directory.
pub proof fn law_a_job_finds_its_files_beside_it(base: Seq<char>, step: Step, r: Step)
    requires
        resolved_step(base, step, r),
    ensures
        r.description == step.description,
        r.id == step.id,
        !(step.kind is AudioPlay) ==> r.kind == step.kind,
        step.kind matches StepKind::AudioPlay { file } ==> (r.kind matches StepKind::AudioPlay {
            file: f,
        } && f@ == resolved_under(Some(base), file@)),
{
}

/// The name of a marker file is plain: a device's letters, digits, dashes and underscores stay, and
/// everything else becomes an underscore.
pub proof fn law_marker_names_are_plain(c: char)
    ensures
        ({
            let plain = ('a' <= c <= 'z') || ('A' <= c <= 'Z') || ('0' <= c <= '9') || c == '-' || c
                == '_';
            &&& plain ==> safe_char(c) == c
            &&& !plain ==> safe_char(c) == '_'
            &&& safe_char(c) != '/' && safe_char(c) != '.'
        }),
{
}

/// Of the files that mark calls the last one about a device counts, and a file that names no call
/// counts for nothing.
pub proof fn law_the_last_marker_counts(contents: Seq<Seq<char>>, content: Seq<char>, device: Seq<char>)
    ensures
        ({
            let was = marked_calls(contents);
            let now = marked_calls(contents.push(content));
            &&& lines(content).len() < 2 ==> now == was
            &&& lines(content).len() >= 2 && lines(content)[0] == device ==> now.dom().contains(device)
                && now[device] == lines(content)[1]
            &&& lines(content).len() >= 2 && lines(content)[0] != device ==> (now.dom().contains(device)
                <==> was.dom().contains(device)) && (was.dom().contains(device) ==> now[device]
                == was[device])
        }),
{
    assert(contents.push(content).drop_last() =~= contents);
}

/// A list that was asked for is the one of its kind that the phone reported last, and empty where it
/// has reported none: its texts, its calls or its SIMs.
pub proof fn law_a_list_is_what_the_phone_reported(
    state: DaemonState,
    device: Seq<char>,
    query: Query,
    r: Reply,
)
    requires
        state.collects(device, query, r),
    ensures
        query is Messages ==> (r matches Reply::Messages(v) && if state.inbox@.dom().contains(device) {
            v@ == state.inbox@[device]@
        } else {
            v@.len() == 0
        }),
        query is Calls ==> (r matches Reply::Calls(v) && if state.call_log@.dom().contains(device) {
            v@ == state.call_log@[device]@
        } else {
            v@.len() == 0
        }),
        query is Sims ==> (r matches Reply::Sims(v) && if state.sims@.dom().contains(device) {
            v@ == state.sims@[device]@
        } else {
            v@.len() == 0
        }),
{
}

/// A result that is waited for is there exactly where the phone has reported one of its kind since
/// the request, and is that one.
pub proof fn law_a_result_is_what_the_phone_reported(
    state: DaemonState,
    device: Seq<char>,
    wanted: Wanted,
    r: Option<Reply>,
)
    requires
        state.polls(device, wanted, r),
    ensures
        wanted is Mmi ==> (r is Some <==> state.mmi_results@.dom().contains(device)),
        wanted is Mmi && r is Some ==> r->0 == Reply::Mmi(state.mmi_results@[device]),
        wanted is Voicemail ==> (r is Some <==> state.voicemail_results@.dom().contains(device)),
        wanted is Voicemail && r is Some ==> r->0 == Reply::Voicemail(
            state.voicemail_results@[device],
        ),
{
}

/// A response carries its request's id, says that it is the last, and whether it went well: with the
/// reply where it did, and with the reason where it did not.
pub proof fn law_a_response_says_how_it_went(
    id: Seq<char>,
    result: Result<Reply, String>,
    r: ControlResponse,
)
    requires
        responds(id, result, r),
    ensures
        r.id@ == id,
        r.done,
        r.ok == Some(result is Ok),
        result is Err ==> r.error is Some && r.error->0@ == result->Err_0@ && r.data is None,
        result is Ok ==> r.error is None,
        result is Ok && !(result->Ok_0 is Done) ==> r.data == Some(result->Ok_0),
        result is Ok && result->Ok_0 is Done ==> r.data is None,
{
}

/// A job is recorded exactly where a folder is configured: there, found from the configuration's own
/// place, under the time at which it starts; mixed where that is configured, and with our side
/// on the left where the channels are so named.
pub proof fn law_a_job_is_recorded_as_configured(
    state: DaemonState,
    now_ms: i64,
    r: Option<RecordPlan>,
)
    requires
        state.records(now_ms, r),
    ensures
        r is Some <==> state.config.audio.record_dir is Some,
        r matches Some(p) ==> {
            &&& p.dir@ == resolved_under(
                opt_view(state.config_dir),
                state.config.audio.record_dir->0@,
            )
            &&& p.session@ == "dialf-job-"@ + signed_decimal(now_ms as int)
            &&& p.mix <==> state.config.audio.mix_recording
            &&& p.tx_left <==> state.config.audio.mix_channels is TxRx
        },
{
}

} // verus!
