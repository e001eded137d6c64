//! The daemon's configuration: every setting has a default, so a run without a file works.

use vstd::prelude::*;

use crate::audio::tool_detect::Os;
use crate::table::Table;
use crate::text;
#[allow(unused_imports)]
use crate::text::decimal;

verus! {

/// Default WebSocket bind address for phones.
pub const DEFAULT_WS_BIND: &'static str = "0.0.0.0:8765";

/// Default service type advertised on the local network.
pub const DEFAULT_SERVICE_TYPE: &'static str = "_dialfd._tcp.local.";

/// Rate used with the sound card.
pub const DEFAULT_SAMPLE_RATE: u32 = 48000;

/// Stereo channel assignment of the mixed recording.
#[derive(Debug, Clone, Copy, PartialEq, Eq, Structural)]
pub enum MixChannels {
    /// Left is tx (our prompts), right is rx (the far end).
    TxRx,
    /// Left is rx, right is tx.
    RxTx,
}

impl Default for MixChannels {
    fn default() -> (r: Self)
        ensures
            r == MixChannels::TxRx,
    {
        MixChannels::TxRx
    }
}

impl MixChannels {
    /// Whether tx belongs in the left channel.
    pub fn tx_left(self) -> (r: bool)
        ensures
            r == (self == MixChannels::TxRx),
    {
        match self {
            MixChannels::TxRx => true,
            MixChannels::RxTx => false,
        }
    }
}

/// Sound-card and audio-tool settings.
#[derive(Debug)]
pub struct AudioConfig {
    /// Sample rate at the card.
    pub sample_rate: u32,
    /// Channel count at the card.
    pub channels: u16,
    /// Capture device hint passed to the tool.
    pub capture_device: Option<String>,
    /// Playback device hint passed to the tool.
    pub playback_device: Option<String>,
    /// Capture command template, in place of a detected tool.
    pub capture_cmd: Option<Vec<String>>,
    /// Playback command template, in place of a detected tool.
    pub playback_cmd: Option<Vec<String>>,
    /// Directory of call recordings; none disables recording.
    pub record_dir: Option<String>,
    /// Whether a recording also gets a mixed file.
    pub mix_recording: bool,
    /// Channel layout of the mixed file.
    pub mix_channels: MixChannels,
}

impl Default for AudioConfig {
    fn default() -> (r: Self)
        ensures
            r.sample_rate == DEFAULT_SAMPLE_RATE,
            r.channels == 1,
            r.capture_device is None,
            r.playback_device is None,
            r.capture_cmd is None,
            r.playback_cmd is None,
            r.record_dir is None,
            !r.mix_recording,
            r.mix_channels == MixChannels::TxRx,
    {
        AudioConfig {
            sample_rate: DEFAULT_SAMPLE_RATE,
            channels: 1,
            capture_device: None,
            playback_device: None,
            capture_cmd: None,
            playback_cmd: None,
            record_dir: None,
            mix_recording: false,
            mix_channels: MixChannels::TxRx,
        }
    }
}

/// The daemon's configuration.
pub struct Config {
    /// Shared secret that a phone presents in its first frame.
    pub shared_key: String,
    /// Path of the control socket, where not the per-user default.
    pub control_socket: Option<String>,
    /// Group that owns the control socket.
    pub control_socket_group: Option<String>,
    /// Octal mode of the control socket.
    pub control_socket_mode: Option<String>,
    /// `host:port` of the phone WebSocket server.
    pub ws_bind: String,
    /// Instance name advertised on the local network.
    pub instance_name: String,
    /// Inbound routing: a number is answered when it rings; with a path, that job is run too.
    pub autoanswer: Table<Option<String>>,
    /// Sound-card settings.
    pub audio: AudioConfig,
}

impl Default for Config {
    fn default() -> (r: Self)
        ensures
            r.shared_key@ == "change-me"@,
            r.control_socket is None,
            r.control_socket_group is None,
            r.control_socket_mode is None,
            r.ws_bind@ == DEFAULT_WS_BIND@,
            r.instance_name@ == "dialfd"@,
            r.autoanswer@ == Map::<Seq<char>, Option<String>>::empty(),
            r.audio.sample_rate == DEFAULT_SAMPLE_RATE,
            r.audio.channels == 1,
            r.audio.capture_device is None,
            r.audio.playback_device is None,
            r.audio.capture_cmd is None,
            r.audio.playback_cmd is None,
            r.audio.record_dir is None,
            !r.audio.mix_recording,
            r.audio.mix_channels == MixChannels::TxRx,
    {
        Config {
            shared_key: "change-me".to_owned(),
            control_socket: None,
            control_socket_group: None,
            control_socket_mode: None,
            ws_bind: DEFAULT_WS_BIND.to_owned(),
            instance_name: "dialfd".to_owned(),
            autoanswer: Table::new(),
            audio: AudioConfig::default(),
        }
    }
}

/// A name inside a directory.
pub open spec fn inside(dir: Seq<char>, name: Seq<char>) -> Seq<char> {
    if dir.len() == 0 {
        name
    } else if dir.last() == '/' {
        dir + name
    } else {
        dir + "/"@ + name
    }
}

/// A name inside a directory.
pub fn join_name(dir: &str, name: &str) -> (r: String)
    ensures
        r@ == inside(dir@, name@),
{
    let mut s = dir.to_owned();
    let n: usize = dir.unicode_len();
    if n > 0 && dir.get_char(n - 1) != '/' {
        s.append("/");
    }
    s.append(name);
    assert(dir@.len() == 0 ==> s@ =~= name@);
    s
}

/// An optional slice, as optional characters.
pub open spec fn opt_text(o: Option<&str>) -> Option<Seq<char>> {
    match o {
        Some(s) => Some(s@),
        None => None,
    }
}

/// The directory of configurations: `$XDG_CONFIG_HOME`, or `.config` at home, or here.
pub open spec fn config_dir_of(xdg: Option<Seq<char>>, home: Option<Seq<char>>) -> Seq<char> {
    match xdg {
        Some(x) => x,
        None => match home {
            Some(h) => inside(h, ".config"@),
            None => "."@,
        },
    }
}

/// The per-user control socket: in the runtime directory, or in `/tmp` under the user's number.
pub open spec fn user_socket(runtime_dir: Option<Seq<char>>, uid: u32) -> Seq<char> {
    match runtime_dir {
        Some(d) => inside(d, "dialfd.sock"@),
        None => "/tmp/dialfd-"@ + decimal(uid as nat) + ".sock"@,
    }
}

fn config_dir(xdg: Option<&str>, home: Option<&str>) -> (r: String)
    ensures
        r@ == config_dir_of(opt_text(xdg), opt_text(home)),
{
    match xdg {
        Some(x) => x.to_owned(),
        None => match home {
            Some(h) => join_name(h, ".config"),
            None => ".".to_owned(),
        },
    }
}

/// The per-user control socket.
pub fn default_control_socket(runtime_dir: Option<&str>, uid: u32) -> (r: String)
    ensures
        r@ == user_socket(opt_text(runtime_dir), uid),
{
    match runtime_dir {
        Some(d) => join_name(d, "dialfd.sock"),
        None => {
            let mut s = "/tmp/dialfd-".to_owned();
            s.append(&text::decimal_of(uid as u64));
            s.append(".sock");
            s
        },
    }
}

/// The machine-wide control socket: one daemon for all users.
pub fn system_control_socket(os: Os) -> (r: String)
    ensures
        r@ == (if os == Os::MacOs {
            "/var/run/dialfd.sock"@
        } else {
            "/run/dialf/dialfd.sock"@
        }),
{
    match os {
        Os::MacOs => "/var/run/dialfd.sock".to_owned(),
        _ => "/run/dialf/dialfd.sock".to_owned(),
    }
}

impl Config {
    /// The conventional path of the configuration file.
    pub fn default_path(xdg: Option<&str>, home: Option<&str>) -> (r: String)
        ensures
            r@ == inside(
                inside(config_dir_of(opt_text(xdg), opt_text(home)), "dialf"@),
                "config.yaml"@,
            ),
    {
        join_name(&join_name(&config_dir(xdg, home), "dialf"), "config.yaml")
    }

    /// The socket that the daemon binds: the configured one, or the per-user default.
    pub fn control_socket_path(&self, runtime_dir: Option<&str>, uid: u32) -> (r: String)
        ensures
            r@ == (match self.control_socket {
                Some(s) => s@,
                None => user_socket(opt_text(runtime_dir), uid),
            }),
    {
        match &self.control_socket {
            Some(s) => s.clone(),
            None => default_control_socket(runtime_dir, uid),
        }
    }

    /// The socket that a client connects to: a configured one wins, then the user's own daemon
    /// if it is there, then the machine's, and else the per-user path.
    pub fn resolve_client_socket(
        explicit: Option<&str>,
        user: &str,
        user_exists: bool,
        system: &str,
        system_exists: bool,
    ) -> (r: String)
        ensures
            r@ == (match explicit {
                Some(e) => e@,
                None => if user_exists || !system_exists {
                    user@
                } else {
                    system@
                },
            }),
    {
        match explicit {
            Some(e) => e.to_owned(),
            None => if user_exists || !system_exists {
                user.to_owned()
            } else {
                system.to_owned()
            },
        }
    }
}

/// A name inside a directory is behind the directory, with one slash between the two.
pub proof fn law_a_name_stands_behind_its_directory(dir: Seq<char>, name: Seq<char>)
    ensures
        inside(Seq::empty(), name) == name,
        dir.len() > 0 && dir.last() != '/' ==> inside(dir, name) == dir + "/"@ + name,
        inside(dir.push('/'), name) == dir + "/"@ + name,
{
    reveal_strlit("/");
    assert(dir.push('/') + name =~= dir + "/"@ + name);
}

/// Configurations lie where the environment says, or else at home, or else here.
pub proof fn law_the_environment_says_where_configurations_lie(
    xdg: Seq<char>,
    home: Seq<char>,
    any_home: Option<Seq<char>>,
)
    ensures
        config_dir_of(Some(xdg), any_home) == xdg,
        config_dir_of(None, Some(home)) == inside(home, ".config"@),
        config_dir_of(None, None) == "."@,
{
}

/// Each user has a control socket of their own: in the runtime directory, or under their number.
pub proof fn law_each_user_has_a_socket(dir: Seq<char>, a: u32, b: u32)
    ensures
        user_socket(Some(dir), a) == inside(dir, "dialfd.sock"@),
        user_socket(None, a) == "/tmp/dialfd-"@ + decimal(a as nat) + ".sock"@,
        user_socket(None, a) == user_socket(None, b) ==> a == b,
{
    text::lemma_decimal_value(a as nat);
    text::lemma_decimal_value(b as nat);
    let x = user_socket(None, a);
    let y = user_socket(None, b);
    let n = "/tmp/dialfd-"@.len() as int;
    let m = ".sock"@.len() as int;
    assert(x.subrange(n, x.len() - m) =~= decimal(a as nat));
    assert(y.subrange(n, y.len() - m) =~= decimal(b as nat));
}

} // verus!
