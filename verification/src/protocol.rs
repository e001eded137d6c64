//! The messages of both planes.
//!
//! Phones speak to the daemon in frames ([`PhoneToServer`], [`ServerToPhone`]); the first frame of
//! a phone is [`PhoneToServer::Hello`]. The command line and other tools send requests
//! ([`ControlRequest`]) over a local socket.

use vstd::prelude::*;

use crate::jobs::schema::Step;
use crate::registry::{CallRecord, SimInfo};

verus! {

/// Call direction.
#[derive(Debug, Clone, Copy, PartialEq, Eq, Structural)]
pub enum Direction {
    In,
    Out,
}

/// Lifecycle state of a call leg, as reported by the phone.
#[derive(Debug, Clone, Copy, PartialEq, Eq, Structural)]
pub enum CallState {
    Ringing,
    Active,
    Ended,
}

/// Messages that a phone sends.
#[derive(Debug, Clone)]
pub enum PhoneToServer {
    /// Handshake; the first frame.
    Hello {
        device_id: String,
        name: String,
        key: String,
        caps: Vec<String>,
        app_version: Option<String>,
        /// The app's per-launch nonce.
        instance_id: String,
    },
    /// Liveness ping.
    Heartbeat { ts: i64, battery: Option<u8> },
    /// A call leg changed state.
    CallState { call_id: String, state: CallState, number: Option<String>, direction: Direction },
    /// A text was received, or a send confirmation echoed.
    Sms {
        direction: Direction,
        from: Option<String>,
        to: Option<String>,
        body: String,
        ts: i64,
    },
    /// Snapshot of the phone's call log.
    Calls { entries: Vec<CallRecord> },
    /// Snapshot of the phone's SIMs.
    Sims { entries: Vec<SimInfo> },
    /// The network's reply to a raw code.
    MmiResult { code: String, success: bool, response: Option<String> },
    /// How a voicemail request came out.
    VoicemailResult { enabled: bool, success: bool, response: Option<String> },
    /// Acknowledges a command.
    Ack { cmd_id: String, ok: bool },
    /// Reports a failure, possibly of a command.
    Error { cmd_id: Option<String>, msg: String },
}

/// Messages that the daemon sends to a phone.
#[derive(Debug, Clone)]
pub enum ServerToPhone {
    /// A command for the phone to execute.
    Cmd { cmd_id: String, action: Action },
    /// Answers a heartbeat.
    HeartbeatAck,
}

/// What a command asks of a phone.
#[derive(Debug, Clone)]
pub enum Action {
    /// Answer a ringing call.
    Answer { call_id: Option<String> },
    /// Place an outbound call.
    Dial { number: String, sim_sub_id: Option<i32> },
    /// End a call leg.
    Hangup { call_id: Option<String> },
    /// Decline the ringing call; `drop` answers and hangs up at once instead.
    Reject { call_id: Option<String>, drop: bool },
    /// Send a text message.
    SendSms { to: String, body: String },
    /// Report the inbox.
    ListSms { since: Option<i64> },
    /// Report the call log.
    ListCalls,
    /// Report the SIMs.
    ListSims,
    /// Send a raw code to the network.
    Mmi { code: String, sim_sub_id: Option<i32> },
    /// Turn voicemail on or off.
    SetVoicemail { enabled: bool, number: Option<String>, sim_sub_id: Option<i32> },
    /// Replace the phone's local auto-answer number list.
    SetAutopickup { numbers: Vec<String> },
}

impl Action {
    /// The word for this kind of command on the wire.
    pub open spec fn word(self) -> Seq<char> {
        match self {
            Action::Answer { .. } => "answer"@,
            Action::Dial { .. } => "dial"@,
            Action::Hangup { .. } => "hangup"@,
            Action::Reject { .. } => "reject"@,
            Action::SendSms { .. } => "send_sms"@,
            Action::ListSms { .. } => "list_sms"@,
            Action::ListCalls => "list_calls"@,
            Action::ListSims => "list_sims"@,
            Action::Mmi { .. } => "mmi"@,
            Action::SetVoicemail { .. } => "set_voicemail"@,
            Action::SetAutopickup { .. } => "set_autopickup"@,
        }
    }

    /// The word for this kind of command on the wire.
    pub fn kind(&self) -> (r: &'static str)
        ensures
            r@ == self.word(),
    {
        match self {
            Action::Answer { .. } => "answer",
            Action::Dial { .. } => "dial",
            Action::Hangup { .. } => "hangup",
            Action::Reject { .. } => "reject",
            Action::SendSms { .. } => "send_sms",
            Action::ListSms { .. } => "list_sms",
            Action::ListCalls => "list_calls",
            Action::ListSims => "list_sims",
            Action::Mmi { .. } => "mmi",
            Action::SetVoicemail { .. } => "set_voicemail",
            Action::SetAutopickup { .. } => "set_autopickup",
        }
    }
}

/// A request on the control socket. `id` is echoed back.
#[derive(Debug, Clone)]
pub struct ControlRequest {
    pub id: String,
    pub op: ControlOp,
}

/// Control operations.
#[derive(Debug, Clone)]
pub enum ControlOp {
    /// Report the daemon's version.
    ServerInfo,
    /// List connected devices.
    DevicesList,
    /// Place a call.
    CallDial { device: String, number: String, sim_sub_id: Option<i32> },
    /// Answer the ringing call.
    CallAnswer { device: String },
    /// Hang up the active call.
    CallHangup { device: String },
    /// Decline the ringing call.
    CallReject { device: String, drop: bool },
    /// Send a text.
    SmsSend { device: String, to: String, body: String },
    /// List recent texts.
    SmsList { device: String },
    /// List the recent call log.
    CallList { device: String },
    /// List the SIMs.
    SimsList { device: String },
    /// Send a raw code to the network.
    Mmi { device: String, code: String, sim_sub_id: Option<i32> },
    /// Turn voicemail on or off.
    VoicemailSet {
        device: String,
        enabled: bool,
        number: Option<String>,
        sim_sub_id: Option<i32>,
    },
    /// Play an audio file out the sound card.
    AudioPlay { file: String, device: Option<String> },
    /// Run a job: an inline step list or a path to load.
    JobRun { path: Option<String>, steps: Option<Vec<Step>>, device: Option<String> },
    /// Stop the running job.
    JobCancel { force: bool },
    /// Serve a job for inbound calls, for as long as the connection lasts.
    AutoanswerServe { numbers: Vec<String>, path: String, device: Option<String> },
    /// Query a running job's status.
    JobStatus { job_id: String },
}

/// The commands have words of their own on the wire.
pub proof fn law_commands_have_their_words(a: Action)
    ensures
        a is Answer ==> a.word() == "answer"@,
        a is Dial ==> a.word() == "dial"@,
        a is Hangup ==> a.word() == "hangup"@,
        a is Reject ==> a.word() == "reject"@,
        a is SendSms ==> a.word() == "send_sms"@,
        a is ListSms ==> a.word() == "list_sms"@,
        a is ListCalls ==> a.word() == "list_calls"@,
        a is ListSims ==> a.word() == "list_sims"@,
        a is Mmi ==> a.word() == "mmi"@,
        a is SetVoicemail ==> a.word() == "set_voicemail"@,
        a is SetAutopickup ==> a.word() == "set_autopickup"@,
{
}

} // verus!
