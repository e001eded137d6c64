//! The daemon as a service of the operating system: launchd on macOS, systemd elsewhere.
//!
//! System scope runs at boot and needs root; user scope runs at login. The service runs
//! `<program> daemon [--config <path>]`.

use vstd::prelude::*;

use crate::audio::tool_detect::Os;
use crate::config::join_name;
#[allow(unused_imports)]
use crate::config::{inside, opt_text};
use crate::text;
#[allow(unused_imports)]
use crate::text::{decimal, joined, views};

verus! {

/// The service's name with launchd, and the base of its unit's name with systemd.
pub const LABEL: &'static str = "build.agora.dialfd";

/// Under which rights, and how long, the service runs.
#[derive(Debug, Clone, Copy, PartialEq, Eq, Structural)]
pub enum Scope {
    /// From boot on, for all users; needs root.
    System,
    /// From login on, for the current user.
    User,
}

/// What can be done with the service.
#[derive(Debug, Clone, Copy, PartialEq, Eq, Structural)]
pub enum Action {
    Install,
    Uninstall,
    Start,
    Stop,
    Status,
}

/// Where the service's file lies.
pub open spec fn unit_place(os: Os, scope: Scope, home: Seq<char>) -> Seq<char> {
    if os == Os::MacOs {
        match scope {
            Scope::System => "/Library/LaunchDaemons/"@ + LABEL@ + ".plist"@,
            Scope::User => inside(inside(home, "Library/LaunchAgents"@), LABEL@ + ".plist"@),
        }
    } else {
        match scope {
            Scope::System => "/etc/systemd/system/"@ + LABEL@ + ".service"@,
            Scope::User => inside(inside(home, ".config/systemd/user"@), LABEL@ + ".service"@),
        }
    }
}

/// Where the service's file lies.
pub fn unit_path(os: Os, scope: Scope, home: &str) -> (r: String)
    ensures
        r@ == unit_place(os, scope, home@),
{
    match (os, scope) {
        (Os::MacOs, Scope::System) => text::cat3("/Library/LaunchDaemons/", LABEL, ".plist"),
        (Os::MacOs, Scope::User) => join_name(
            &join_name(home, "Library/LaunchAgents"),
            &text::cat(LABEL, ".plist"),
        ),
        (_, Scope::System) => text::cat3("/etc/systemd/system/", LABEL, ".service"),
        (_, Scope::User) => join_name(
            &join_name(home, ".config/systemd/user"),
            &text::cat(LABEL, ".service"),
        ),
    }
}

/// The launchd file up to the service's name.
pub const PLIST_HEAD: &'static str = "<?xml version=\"1.0\" encoding=\"UTF-8\"?>\n<!DOCTYPE plist PUBLIC \"-//Apple//DTD PLIST 1.0//EN\" \"http://www.apple.com/DTDs/PropertyList-1.0.dtd\">\n<plist version=\"1.0\">\n<dict>\n  <key>Label</key>\n  <string>";

/// From the name to the arguments.
pub const PLIST_ARGS: &'static str = "</string>\n  <key>ProgramArguments</key>\n  <array>\n";

/// From the arguments to the log of output.
pub const PLIST_OUT: &'static str = "  </array>\n  <key>RunAtLoad</key>\n  <true/>\n  <key>KeepAlive</key>\n  <true/>\n  <key>StandardOutPath</key>\n  <string>";

/// Between the two logs.
pub const PLIST_ERR: &'static str = "</string>\n  <key>StandardErrorPath</key>\n  <string>";

/// The rest of the launchd file.
pub const PLIST_TAIL: &'static str = "</string>\n  <key>EnvironmentVariables</key>\n  <dict>\n    <key>PATH</key>\n    <string>/opt/homebrew/bin:/usr/local/bin:/usr/bin:/bin:/usr/sbin:/sbin</string>\n  </dict>\n</dict>\n</plist>\n";

/// One element of the argument list.
pub open spec fn plist_string(s: Seq<char>) -> Seq<char> {
    "    <string>"@ + s + "</string>\n"@
}

/// The argument list of the service.
pub open spec fn plist_args(exe: Seq<char>, config: Option<Seq<char>>) -> Seq<char> {
    plist_string(exe) + plist_string("daemon"@) + (match config {
        Some(c) => plist_string("--config"@) + plist_string(c),
        None => Seq::empty(),
    })
}

/// Where a log of the service lies: for all users, or in the user's library.
pub open spec fn log_place(scope: Scope, home: Seq<char>, name: Seq<char>) -> Seq<char> {
    match scope {
        Scope::System => "/var/log/"@ + name,
        Scope::User => inside(inside(home, "Library/Logs"@), name),
    }
}

/// The service's file for launchd.
pub open spec fn plist(exe: Seq<char>, config: Option<Seq<char>>, scope: Scope, home: Seq<char>) -> Seq<
    char,
> {
    PLIST_HEAD@ + LABEL@ + PLIST_ARGS@ + plist_args(exe, config) + PLIST_OUT@ + log_place(
        scope,
        home,
        "dialfd.out.log"@,
    ) + PLIST_ERR@ + log_place(scope, home, "dialfd.err.log"@) + PLIST_TAIL@
}

fn plist_element(s: &str) -> (r: String)
    ensures
        r@ == plist_string(s@),
{
    text::cat3("    <string>", s, "</string>\n")
}

fn log_path(scope: Scope, home: &str, name: &str) -> (r: String)
    ensures
        r@ == log_place(scope, home@, name@),
{
    match scope {
        Scope::System => text::cat("/var/log/", name),
        Scope::User => join_name(&join_name(home, "Library/Logs"), name),
    }
}

/// The service's file for launchd.
pub fn launchd_plist(exe: &str, config: Option<&str>, scope: Scope, home: &str) -> (r: String)
    ensures
        r@ == plist(exe@, opt_text(config), scope, home@),
{
    let mut args = text::cat(&plist_element(exe), &plist_element("daemon"));
    match config {
        Some(c) => {
            args.append(&text::cat(&plist_element("--config"), &plist_element(c)));
        },
        None => {
            proof {
                assert(args@ + Seq::<char>::empty() =~= args@);
            }
        },
    }
    let mut s = text::cat3(PLIST_HEAD, LABEL, PLIST_ARGS);
    s.append(&args);
    s.append(PLIST_OUT);
    s.append(&log_path(scope, home, "dialfd.out.log"));
    s.append(PLIST_ERR);
    s.append(&log_path(scope, home, "dialfd.err.log"));
    s.append(PLIST_TAIL);
    s
}

/// The systemd file up to the command line.
pub const UNIT_HEAD: &'static str = "[Unit]\nDescription=DialF daemon (dialfd)\nAfter=network-online.target\nWants=network-online.target\n\n[Service]\nExecStart=";

/// From the command line to the target.
pub const UNIT_BODY: &'static str = "\nRestart=always\nRestartSec=2\nEnvironment=PATH=/usr/local/bin:/usr/bin:/bin:/usr/sbin:/sbin\n\n[Install]\nWantedBy=";

/// The command line of the service.
pub open spec fn exec_line(exe: Seq<char>, config: Option<Seq<char>>) -> Seq<char> {
    match config {
        Some(c) => exe + " daemon --config "@ + c,
        None => exe + " daemon"@,
    }
}

/// The service's file for systemd.
pub open spec fn unit(exe: Seq<char>, config: Option<Seq<char>>, scope: Scope) -> Seq<char> {
    UNIT_HEAD@ + exec_line(exe, config) + UNIT_BODY@ + (match scope {
        Scope::System => "multi-user.target"@,
        Scope::User => "default.target"@,
    }) + "\n"@
}

/// The service's file for systemd.
pub fn systemd_unit(exe: &str, config: Option<&str>, scope: Scope) -> (r: String)
    ensures
        r@ == unit(exe@, opt_text(config), scope),
{
    let exec = match config {
        Some(c) => text::cat3(exe, " daemon --config ", c),
        None => text::cat(exe, " daemon"),
    };
    let mut s = text::cat3(UNIT_HEAD, &exec, UNIT_BODY);
    s.append(
        match scope {
            Scope::System => "multi-user.target",
            Scope::User => "default.target",
        },
    );
    s.append("\n");
    s
}

/// The service's file.
pub fn unit_contents(os: Os, exe: &str, config: Option<&str>, scope: Scope, home: &str) -> (r: String)
    ensures
        r@ == (if os == Os::MacOs {
            plist(exe@, opt_text(config), scope, home@)
        } else {
            unit(exe@, opt_text(config), scope)
        }),
{
    match os {
        Os::MacOs => launchd_plist(exe, config, scope, home),
        _ => systemd_unit(exe, config, scope),
    }
}

/// The domain of launchd in which the service lives.
pub open spec fn domain(scope: Scope, uid: u32) -> Seq<char> {
    match scope {
        Scope::System => "system"@,
        Scope::User => "gui/"@ + decimal(uid as nat),
    }
}

/// The domain of launchd in which the service lives.
pub fn launchd_domain(scope: Scope, uid: u32) -> (r: String)
    ensures
        r@ == domain(scope, uid),
{
    match scope {
        Scope::System => "system".to_owned(),
        Scope::User => text::cat("gui/", &text::decimal_of(uid as u64)),
    }
}

/// The name of the service's unit.
pub fn service_name() -> (r: String)
    ensures
        r@ == LABEL@ + ".service"@,
{
    text::cat(LABEL, ".service")
}

/// A command to run.
#[derive(Debug)]
pub struct Cmd {
    pub program: &'static str,
    pub args: Vec<String>,
    /// Whether its failure is passed over.
    pub may_fail: bool,
    /// Whether its output is discarded.
    pub quiet: bool,
}

/// A [`Cmd`] with its texts as characters.
pub struct CmdModel {
    pub program: Seq<char>,
    pub args: Seq<Seq<char>>,
    pub may_fail: bool,
    pub quiet: bool,
}

impl View for Cmd {
    type V = CmdModel;

    open spec fn view(&self) -> CmdModel {
        CmdModel {
            program: self.program@,
            args: views(self.args@),
            may_fail: self.may_fail,
            quiet: self.quiet,
        }
    }
}

/// The commands of a list, each as a model.
pub open spec fn cmds(v: Seq<Cmd>) -> Seq<CmdModel> {
    v.map_values(|c: Cmd| c@)
}

/// A command of launchd.
pub open spec fn launchctl_cmd(args: Seq<Seq<char>>, may_fail: bool, quiet: bool) -> CmdModel {
    CmdModel { program: "launchctl"@, args, may_fail, quiet }
}

/// A command of systemd, for the user's own instance in user scope.
pub open spec fn systemctl_cmd(scope: Scope, args: Seq<Seq<char>>, may_fail: bool) -> CmdModel {
    CmdModel {
        program: "systemctl"@,
        args: if scope == Scope::User {
            seq!["--user"@] + args
        } else {
            args
        },
        may_fail,
        quiet: false,
    }
}

/// The commands of an action. A service that runs already is replaced on installation: that it
/// was not there is no failure.
pub open spec fn action_cmds(action: Action, os: Os, scope: Scope, uid: u32, path: Seq<char>) -> Seq<
    CmdModel,
> {
    let d = domain(scope, uid);
    let target = d + "/"@ + LABEL@;
    let name = LABEL@ + ".service"@;
    if os == Os::MacOs {
        match action {
            Action::Install => seq![
                launchctl_cmd(seq!["bootout"@, d, path], true, true),
                launchctl_cmd(seq!["bootstrap"@, d, path], false, false),
                launchctl_cmd(seq!["enable"@, target], true, false),
            ],
            Action::Uninstall => seq![launchctl_cmd(seq!["bootout"@, d, path], true, false)],
            Action::Start => seq![launchctl_cmd(seq!["kickstart"@, "-k"@, target], false, false)],
            Action::Stop => seq![launchctl_cmd(seq!["kill"@, "SIGTERM"@, target], false, false)],
            Action::Status => seq![launchctl_cmd(seq!["print"@, target], false, false)],
        }
    } else {
        match action {
            Action::Install => seq![
                systemctl_cmd(scope, seq!["daemon-reload"@], false),
                systemctl_cmd(scope, seq!["enable"@, "--now"@, name], false),
            ],
            Action::Uninstall => seq![
                systemctl_cmd(scope, seq!["disable"@, "--now"@, name], true),
                systemctl_cmd(scope, seq!["daemon-reload"@], true),
            ],
            Action::Start => seq![systemctl_cmd(scope, seq!["start"@, name], false)],
            Action::Stop => seq![systemctl_cmd(scope, seq!["stop"@, name], false)],
            Action::Status => seq![systemctl_cmd(scope, seq!["status"@, name], false)],
        }
    }
}

fn one(a: &str) -> (r: Vec<String>)
    ensures
        views(r@) == seq![a@],
{
    let mut v: Vec<String> = Vec::new();
    v.push(a.to_owned());
    assert(views(v@) =~= seq![a@]);
    v
}

fn two(a: &str, b: &str) -> (r: Vec<String>)
    ensures
        views(r@) == seq![a@, b@],
{
    let mut v: Vec<String> = Vec::new();
    v.push(a.to_owned());
    v.push(b.to_owned());
    assert(views(v@) =~= seq![a@, b@]);
    v
}

fn three(a: &str, b: &str, c: &str) -> (r: Vec<String>)
    ensures
        views(r@) == seq![a@, b@, c@],
{
    let mut v: Vec<String> = Vec::new();
    v.push(a.to_owned());
    v.push(b.to_owned());
    v.push(c.to_owned());
    assert(views(v@) =~= seq![a@, b@, c@]);
    v
}

fn launchctl(args: Vec<String>, may_fail: bool, quiet: bool) -> (r: Cmd)
    ensures
        r@ == launchctl_cmd(views(args@), may_fail, quiet),
{
    Cmd { program: "launchctl", args, may_fail, quiet }
}

fn systemctl(scope: Scope, args: Vec<String>, may_fail: bool) -> (r: Cmd)
    ensures
        r@ == systemctl_cmd(scope, views(args@), may_fail),
{
    let mut args = args;
    if scope == Scope::User {
        let ghost had = args@;
        args.insert(0, "--user".to_owned());
        assert(views(args@) =~= seq!["--user"@] + views(had));
    }
    Cmd { program: "systemctl", args, may_fail, quiet: false }
}

/// The commands of an action, in order. An installation has written the service's file at `path`
/// before them; a removal deletes it after them.
pub fn run(action: Action, os: Os, scope: Scope, uid: u32, path: &str) -> (r: Vec<Cmd>)
    ensures
        cmds(r@) == action_cmds(action, os, scope, uid, path@),
{
    let d = launchd_domain(scope, uid);
    let target = text::cat3(&d, "/", LABEL);
    let name = service_name();
    let mut out: Vec<Cmd> = Vec::new();
    match os {
        Os::MacOs => match action {
            Action::Install => {
                out.push(launchctl(three("bootout", &d, path), true, true));
                out.push(launchctl(three("bootstrap", &d, path), false, false));
                out.push(launchctl(two("enable", &target), true, false));
            },
            Action::Uninstall => {
                out.push(launchctl(three("bootout", &d, path), true, false));
            },
            Action::Start => {
                out.push(launchctl(three("kickstart", "-k", &target), false, false));
            },
            Action::Stop => {
                out.push(launchctl(three("kill", "SIGTERM", &target), false, false));
            },
            Action::Status => {
                out.push(launchctl(two("print", &target), false, false));
            },
        },
        _ => match action {
            Action::Install => {
                out.push(systemctl(scope, one("daemon-reload"), false));
                out.push(systemctl(scope, three("enable", "--now", &name), false));
            },
            Action::Uninstall => {
                out.push(systemctl(scope, three("disable", "--now", &name), true));
                out.push(systemctl(scope, one("daemon-reload"), true));
            },
            Action::Start => {
                out.push(systemctl(scope, two("start", &name), false));
            },
            Action::Stop => {
                out.push(systemctl(scope, two("stop", &name), false));
            },
            Action::Status => {
                out.push(systemctl(scope, two("status", &name), false));
            },
        },
    }
    proof {
        assert(cmds(out@) =~= action_cmds(action, os, scope, uid, path@));
    }
    out
}

/// What is said of a command that failed.
pub fn command_failed(cmd: &Cmd, status: &str) -> (r: String)
    ensures
        r@ == "`"@ + cmd.program@ + " "@ + joined(views(cmd.args@), " "@) + "` failed with "@
            + status@,
{
    let mut s = text::cat3("`", cmd.program, " ");
    s.append(&text::join(&cmd.args, " "));
    s.append("` failed with ");
    s.append(status);
    s
}

/// What is said when the service's file could not be written.
pub fn write_failed(path: &str, denied: bool, error: &str) -> (r: String)
    ensures
        r@ == (if denied {
            "permission denied writing "@ + path@
                + " — system scope needs root: re-run with `sudo`, or use `--user`"@
        } else {
            "write "@ + path@ + ": "@ + error@
        }),
{
    if denied {
        text::cat3(
            "permission denied writing ",
            path,
            " — system scope needs root: re-run with `sudo`, or use `--user`",
        )
    } else {
        let mut s = text::cat3("write ", path, ": ");
        s.append(error);
        s
    }
}

/// What is run for each action on macOS: an installation replaces the service that is there, which
/// may not be, loads the file and enables it; a removal unloads it; the rest speaks of the
/// service by its domain and name.
pub proof fn law_launchd_is_told_what_to_do(scope: Scope, uid: u32, path: Seq<char>)
    ensures
        ({
            let d = match scope {
                Scope::System => "system"@,
                Scope::User => "gui/"@ + decimal(uid as nat),
            };
            let target = d + "/"@ + LABEL@;
            let install = action_cmds(Action::Install, Os::MacOs, scope, uid, path);
            let uninstall = action_cmds(Action::Uninstall, Os::MacOs, scope, uid, path);
            let start = action_cmds(Action::Start, Os::MacOs, scope, uid, path);
            let stop = action_cmds(Action::Stop, Os::MacOs, scope, uid, path);
            let status = action_cmds(Action::Status, Os::MacOs, scope, uid, path);
            &&& install.len() == 3
            &&& install[0].args == seq!["bootout"@, d, path] && install[0].may_fail
                && install[0].quiet
            &&& install[1].args == seq!["bootstrap"@, d, path] && !install[1].may_fail
                && !install[1].quiet
            &&& install[2].args == seq!["enable"@, target] && install[2].may_fail
                && !install[2].quiet
            &&& uninstall.len() == 1
            &&& uninstall[0].args == seq!["bootout"@, d, path] && uninstall[0].may_fail
            &&& start.len() == 1
            &&& start[0].args == seq!["kickstart"@, "-k"@, target] && !start[0].may_fail
            &&& stop.len() == 1
            &&& stop[0].args == seq!["kill"@, "SIGTERM"@, target] && !stop[0].may_fail
            &&& status.len() == 1
            &&& status[0].args == seq!["print"@, target] && !status[0].may_fail
        }),
{
}

/// What is run for each action elsewhere: systemd reads its files anew and enables and starts the
/// service at once; a removal does the opposite, whether or not it was there. In user scope it is
/// the user's own systemd that is told.
pub proof fn law_systemd_is_told_what_to_do(os: Os, scope: Scope, uid: u32, path: Seq<char>)
    requires
        os != Os::MacOs,
    ensures
        ({
            let whose = match scope {
                Scope::System => Seq::<Seq<char>>::empty(),
                Scope::User => seq!["--user"@],
            };
            let name = LABEL@ + ".service"@;
            let install = action_cmds(Action::Install, os, scope, uid, path);
            let uninstall = action_cmds(Action::Uninstall, os, scope, uid, path);
            let start = action_cmds(Action::Start, os, scope, uid, path);
            let stop = action_cmds(Action::Stop, os, scope, uid, path);
            let status = action_cmds(Action::Status, os, scope, uid, path);
            &&& install.len() == 2
            &&& install[0].args =~= whose + seq!["daemon-reload"@] && !install[0].may_fail
            &&& install[1].args =~= whose + seq!["enable"@, "--now"@, name] && !install[1].may_fail
            &&& uninstall.len() == 2
            &&& uninstall[0].args =~= whose + seq!["disable"@, "--now"@, name]
                && uninstall[0].may_fail
            &&& uninstall[1].args =~= whose + seq!["daemon-reload"@] && uninstall[1].may_fail
            &&& start.len() == 1
            &&& start[0].args =~= whose + seq!["start"@, name] && !start[0].may_fail
            &&& stop.len() == 1
            &&& stop[0].args =~= whose + seq!["stop"@, name] && !stop[0].may_fail
            &&& status.len() == 1
            &&& status[0].args =~= whose + seq!["status"@, name] && !status[0].may_fail
        }),
{
}

/// Every command of an action is one of the system's own service manager.
pub proof fn law_each_system_has_its_manager(
    action: Action,
    os: Os,
    scope: Scope,
    uid: u32,
    path: Seq<char>,
    i: int,
)
    requires
        0 <= i < action_cmds(action, os, scope, uid, path).len(),
    ensures
        action_cmds(action, os, scope, uid, path)[i].program == if os == Os::MacOs {
            "launchctl"@
        } else {
            "systemctl"@
        },
{
}

/// The service runs this very program as a daemon, with its configuration where one is given: on
/// macOS each word is an argument of its own, elsewhere they stand on the command line.
pub proof fn law_the_service_runs_the_daemon(
    exe: Seq<char>,
    config: Seq<char>,
    scope: Scope,
    home: Seq<char>,
)
    ensures
        unit(exe, None, scope) == UNIT_HEAD@ + (exe + " daemon"@) + UNIT_BODY@ + (match scope {
            Scope::System => "multi-user.target"@,
            Scope::User => "default.target"@,
        }) + "\n"@,
        unit(exe, Some(config), scope) == UNIT_HEAD@ + (exe + " daemon --config "@ + config)
            + UNIT_BODY@ + (match scope {
            Scope::System => "multi-user.target"@,
            Scope::User => "default.target"@,
        }) + "\n"@,
        plist_args(exe, None) =~= "    <string>"@ + exe + "</string>\n"@ + ("    <string>"@
            + "daemon"@ + "</string>\n"@),
        plist_args(exe, Some(config)) =~= "    <string>"@ + exe + "</string>\n"@ + ("    <string>"@
            + "daemon"@ + "</string>\n"@) + (("    <string>"@ + "--config"@ + "</string>\n"@) + (
        "    <string>"@ + config + "</string>\n"@)),
        plist(exe, Some(config), scope, home) == PLIST_HEAD@ + LABEL@ + PLIST_ARGS@ + plist_args(
            exe,
            Some(config),
        ) + PLIST_OUT@ + log_place(scope, home, "dialfd.out.log"@) + PLIST_ERR@ + log_place(
            scope,
            home,
            "dialfd.err.log"@,
        ) + PLIST_TAIL@,
{
}

/// Where the service's file and its logs lie: for all users in the system's own directories, for
/// one user at their home.
pub proof fn law_the_service_lies_in_its_scope(home: Seq<char>, name: Seq<char>)
    ensures
        unit_place(Os::MacOs, Scope::System, home) == "/Library/LaunchDaemons/"@
            + "build.agora.dialfd"@ + ".plist"@,
        unit_place(Os::MacOs, Scope::User, home) == inside(
            inside(home, "Library/LaunchAgents"@),
            "build.agora.dialfd"@ + ".plist"@,
        ),
        unit_place(Os::Linux, Scope::System, home) == "/etc/systemd/system/"@
            + "build.agora.dialfd"@ + ".service"@,
        unit_place(Os::Linux, Scope::User, home) == inside(
            inside(home, ".config/systemd/user"@),
            "build.agora.dialfd"@ + ".service"@,
        ),
        unit_place(Os::Other, Scope::System, home) == unit_place(Os::Linux, Scope::System, home),
        unit_place(Os::Other, Scope::User, home) == unit_place(Os::Linux, Scope::User, home),
        log_place(Scope::System, home, name) == "/var/log/"@ + name,
        log_place(Scope::User, home, name) == inside(inside(home, "Library/Logs"@), name),
{
}

} // verus!
