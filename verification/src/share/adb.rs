//! The adb protocol gate: which devices a share exposes.
//!
//! Each adb connection states its intent in one length-prefixed request. Reading that first
//! request is enough to decide the connection's fate: [`decide`] is the whole policy.
//!
//! Wire format: `<4 hex digits: payload length><payload>`, answered with `OKAY` or
//! `FAIL<4 hex><reason>`.

use vstd::prelude::*;
#[allow(unused_imports)]
use vstd::utf8::{decode_utf8, encode_utf8};

use crate::hex;
#[allow(unused_imports)]
use crate::hex::{nibble, nibble_value};
use crate::text;
#[allow(unused_imports)]
use crate::text::{
    after_prefix, char_replaced, joined, lines, views, without_trailing, words,
};

verus! {

/// Which devices a share exposes.
#[derive(Debug, Clone, PartialEq, Eq)]
pub enum Targets {
    /// Every device attached to the host, now and later.
    All,
    /// Only these serials (adb's device id: `4B2B1C`, or `192.168.1.5:5555` over WiFi).
    Only(Vec<String>),
}

impl Targets {
    /// Whether the device `serial` is shared.
    pub open spec fn permits(self, serial: Seq<char>) -> bool {
        match self {
            Targets::All => true,
            Targets::Only(list) => views(list@).contains(serial),
        }
    }

    /// What a person reads of the shared devices.
    pub open spec fn description(self) -> Seq<char> {
        match self {
            Targets::All => "all attached devices"@,
            Targets::Only(list) => joined(views(list@), ", "@),
        }
    }

    /// Whether the device `serial` is shared.
    pub fn allows(&self, serial: &str) -> (r: bool)
        ensures
            r == self.permits(serial@),
    {
        match self {
            Targets::All => true,
            Targets::Only(list) => {
                let mut i: usize = 0;
                while i < list.len()
                    invariant
                        i <= list.len(),
                        *self == Targets::Only(*list),
                        forall|j: int| 0 <= j < i ==> views(list@)[j] != serial@,
                    decreases list.len() - i,
                {
                    if text::same(&list[i], serial) {
                        assert(views(list@)[i as int] == serial@);
                        return true;
                    }
                    i += 1;
                }
                false
            },
        }
    }

    /// The single device to resolve an unqualified request to, when that is unambiguous.
    fn only_one(&self) -> (r: Option<&str>)
        ensures
            match (r, *self) {
                (Some(s), Targets::Only(list)) => list@.len() == 1 && s@ == views(list@)[0],
                (Some(_), Targets::All) => false,
                (None, Targets::Only(list)) => list@.len() != 1,
                (None, Targets::All) => true,
            },
    {
        match self {
            Targets::Only(list) => if list.len() == 1 {
                Some(list[0].as_str())
            } else {
                None
            },
            Targets::All => None,
        }
    }

    /// What a person reads of the shared devices.
    pub fn describe(&self) -> (r: String)
        ensures
            r@ == self.description(),
    {
        match self {
            Targets::All => "all attached devices".to_owned(),
            Targets::Only(list) => text::join(list, ", "),
        }
    }
}

/// What to do with a connection, decided from its first request.
#[derive(Debug, Clone, PartialEq, Eq)]
pub enum Decision {
    /// Send the request as it is, then splice the rest of the connection untouched.
    Forward,
    /// Send this rewritten request instead, then splice.
    Rewrite(String),
    /// Forward, then filter the device list that comes back; `streaming` keeps filtering.
    FilterList { streaming: bool },
    /// Never reaches the upstream; the peer gets this as a `FAIL`.
    Reject(String),
}

/// A [`Decision`] with its text as characters.
pub enum Verdict {
    Forward,
    Rewrite(Seq<char>),
    FilterList { streaming: bool },
    Reject(Seq<char>),
}

impl View for Decision {
    type V = Verdict;

    open spec fn view(&self) -> Verdict {
        match *self {
            Decision::Forward => Verdict::Forward,
            Decision::Rewrite(s) => Verdict::Rewrite(s@),
            Decision::FilterList { streaming } => Verdict::FilterList { streaming },
            Decision::Reject(s) => Verdict::Reject(s@),
        }
    }
}

/// Requests that would stop the host's adb server or attach and detach its devices.
pub open spec fn is_kill(req: Seq<char>) -> bool {
    req == "host:kill"@
}

/// Requests that attach a device to the host or detach one.
pub open spec fn is_attach(req: Seq<char>) -> bool {
    "host:connect:"@.is_prefix_of(req) || "host:disconnect"@.is_prefix_of(req)
}

/// The device that `req` names as its transport, if it names one.
pub open spec fn named_transport(req: Seq<char>) -> Option<Seq<char>> {
    match after_prefix(req, "host:transport:"@) {
        Some(s) => Some(s),
        None => after_prefix(req, "host:tport:serial:"@),
    }
}

/// Whether `req` asks for whichever device there is.
pub open spec fn is_unqualified(req: Seq<char>) -> bool {
    ||| req == "host:transport-any"@
    ||| req == "host:transport-usb"@
    ||| req == "host:transport-local"@
    ||| req == "host:tport:any"@
    ||| req == "host:tport:usb"@
    ||| req == "host:tport:local"@
}

/// Whether `rest` is `<serial>:<command>` for this serial.
pub open spec fn addresses(rest: Seq<char>, serial: Seq<char>) -> bool {
    (serial + ":"@).is_prefix_of(rest)
}

/// Whether `rest` is `<serial>:<command>` for a shared serial.
pub open spec fn addresses_shared(rest: Seq<char>, targets: Targets) -> bool {
    match targets {
        Targets::All => true,
        Targets::Only(list) => exists|i: int|
            0 <= i < list@.len() && addresses(rest, #[trigger] views(list@)[i]),
    }
}

/// The refusal of a device that is not shared.
pub open spec fn not_shared_text(serial: Seq<char>, targets: Targets) -> Seq<char> {
    "device `"@ + serial + "` is not shared by this host (sharing: "@ + targets.description()
        + ")"@
}

/// The sharing policy: the fate of a connection whose first request is `request`.
pub open spec fn verdict(request: Seq<char>, targets: Targets) -> Verdict {
    let req = without_trailing(request, '\0');
    if is_kill(req) {
        Verdict::Reject(
            "host:kill is blocked by dialf device sharing (it would stop the host's adb server)"@,
        )
    } else if is_attach(req) {
        Verdict::Reject(
            "attaching/detaching devices on the host is blocked by dialf device sharing"@,
        )
    } else if req == "host:devices"@ || req == "host:devices-l"@ {
        Verdict::FilterList { streaming: false }
    } else if req == "host:track-devices"@ || req == "host:track-devices-l"@ {
        Verdict::FilterList { streaming: true }
    } else if let Some(serial) = named_transport(req) {
        if targets.permits(serial) {
            Verdict::Forward
        } else {
            Verdict::Reject(not_shared_text(serial, targets))
        }
    } else if let Some(rest) = after_prefix(req, "host-serial:"@) {
        if addresses_shared(rest, targets) {
            Verdict::Forward
        } else {
            Verdict::Reject(
                "`"@ + rest + "` is not a shared device (sharing: "@ + targets.description()
                    + ")"@,
            )
        }
    } else if is_unqualified(req) {
        match targets {
            Targets::All => Verdict::Forward,
            Targets::Only(list) => if list@.len() == 1 {
                if "host:tport:"@.is_prefix_of(req) {
                    Verdict::Rewrite("host:tport:serial:"@ + list@[0]@)
                } else {
                    Verdict::Rewrite("host:transport:"@ + list@[0]@)
                }
            } else {
                Verdict::Reject(
                    "several devices are shared ("@ + targets.description()
                        + ") — pick one with `adb -s <serial>`"@,
                )
            },
        }
    } else {
        Verdict::Forward
    }
}

/// Decides a connection's fate from its first request.
pub fn decide(request: &str, targets: &Targets) -> (r: Decision)
    ensures
        r@ == verdict(request@, *targets),
{
    let req = text::trim_end_of(request, '\0');
    if text::same(req, "host:kill") {
        return Decision::Reject(
            "host:kill is blocked by dialf device sharing (it would stop the host's adb server)".to_owned(),
        );
    }
    if text::starts_with(req, "host:connect:") || text::starts_with(req, "host:disconnect") {
        return Decision::Reject(
            "attaching/detaching devices on the host is blocked by dialf device sharing".to_owned(),
        );
    }
    if text::same(req, "host:devices") || text::same(req, "host:devices-l") {
        return Decision::FilterList { streaming: false };
    }
    if text::same(req, "host:track-devices") || text::same(req, "host:track-devices-l") {
        return Decision::FilterList { streaming: true };
    }
    let named = match text::strip_prefix(req, "host:transport:") {
        Some(serial) => Some(serial),
        None => text::strip_prefix(req, "host:tport:serial:"),
    };
    if let Some(serial) = named {
        return if targets.allows(serial) {
            Decision::Forward
        } else {
            Decision::Reject(not_shared(serial, targets))
        };
    }
    if let Some(rest) = text::strip_prefix(req, "host-serial:") {
        return if matching_serial(rest, targets) {
            Decision::Forward
        } else {
            let mut why = "`".to_owned();
            why.append(rest);
            why.append("` is not a shared device (sharing: ");
            why.append(&targets.describe());
            why.append(")");
            Decision::Reject(why)
        };
    }
    if text::same(req, "host:transport-any") || text::same(req, "host:transport-usb")
        || text::same(req, "host:transport-local") || text::same(req, "host:tport:any")
        || text::same(req, "host:tport:usb") || text::same(req, "host:tport:local") {
        return match targets {
            Targets::All => Decision::Forward,
            Targets::Only(_) => match targets.only_one() {
                Some(serial) => {
                    let mut to = if text::starts_with(req, "host:tport:") {
                        "host:tport:serial:".to_owned()
                    } else {
                        "host:transport:".to_owned()
                    };
                    to.append(serial);
                    Decision::Rewrite(to)
                },
                None => {
                    let mut why = "several devices are shared (".to_owned();
                    why.append(&targets.describe());
                    why.append(") — pick one with `adb -s <serial>`");
                    Decision::Reject(why)
                },
            },
        };
    }
    Decision::Forward
}

fn not_shared(serial: &str, targets: &Targets) -> (r: String)
    ensures
        r@ == not_shared_text(serial@, *targets),
{
    let mut why = "device `".to_owned();
    why.append(serial);
    why.append("` is not shared by this host (sharing: ");
    why.append(&targets.describe());
    why.append(")");
    why
}

/// Whether `rest` (`<serial>:<command>`) addresses a shared serial. A serial may itself hold a
/// colon, so known serials are tried instead of splitting at one.
fn matching_serial(rest: &str, targets: &Targets) -> (r: bool)
    ensures
        r == addresses_shared(rest@, *targets),
{
    match targets {
        Targets::All => true,
        Targets::Only(list) => {
            let mut i: usize = 0;
            while i < list.len()
                invariant
                    i <= list.len(),
                    *targets == Targets::Only(*list),
                    forall|j: int| 0 <= j < i ==> !addresses(rest@, #[trigger] views(list@)[j]),
                decreases list.len() - i,
            {
                let mut head = list[i].clone();
                head.append(":");
                if text::starts_with(rest, &head) {
                    assert(addresses(rest@, views(list@)[i as int]));
                    assert(targets->Only_0 == *list);
                    return true;
                }
                i += 1;
            }
            false
        },
    }
}

/// The device that a line of a device list is about.
pub open spec fn line_serial(line: Seq<char>) -> Option<Seq<char>> {
    if words(line).len() > 0 {
        Some(words(line)[0])
    } else {
        None
    }
}

/// Whether a line of a device list is about a shared device.
pub open spec fn line_shared(line: Seq<char>, targets: Targets) -> bool {
    line_serial(line) is Some && targets.permits(line_serial(line)->0)
}

/// The lines about shared devices, each ended by a line feed.
pub open spec fn shared_lines(ls: Seq<Seq<char>>, targets: Targets) -> Seq<char>
    decreases ls.len(),
{
    if ls.len() == 0 {
        Seq::empty()
    } else {
        let rest = shared_lines(ls.drop_last(), targets);
        if line_shared(ls.last(), targets) {
            rest + ls.last() + "\n"@
        } else {
            rest
        }
    }
}

/// A device list with only the shared devices in it.
pub open spec fn filtered(payload: Seq<char>, targets: Targets) -> Seq<char> {
    if targets is All {
        payload
    } else {
        shared_lines(lines(payload), targets)
    }
}

/// Keeps only shared devices in a `host:devices` payload.
///
/// Lines are `<serial>\t<state>` (or, for `-l`, `<serial> <state> key:value …`). An empty
/// payload stays empty.
pub fn filter_device_list(payload: &str, targets: &Targets) -> (r: String)
    ensures
        r@ == filtered(payload@, *targets),
{
    if let Targets::All = targets {
        return payload.to_owned();
    }
    let ls = text::split_lines(payload);
    let mut out = String::new();
    let mut i: usize = 0;
    while i < ls.len()
        invariant
            i <= ls.len(),
            views(ls@) == lines(payload@),
            out@ == shared_lines(lines(payload@).take(i as int), *targets),
        decreases ls.len() - i,
    {
        proof {
            let all = lines(payload@);
            assert(all.take(i + 1).drop_last() =~= all.take(i as int));
            assert(all.take(i + 1).last() == views(ls@)[i as int]);
        }
        let parts = text::split_words(&ls[i]);
        if parts.len() > 0 {
            assert(views(parts@)[0] == parts@[0]@);
            if targets.allows(&parts[0]) {
                out.append(&ls[i]);
                out.append("\n");
            }
        }
        i += 1;
    }
    proof {
        assert(lines(payload@).take(i as int) =~= lines(payload@));
    }
    out
}

/// One device as the adb server reports it.
#[derive(Debug, Clone, PartialEq, Eq)]
pub struct Device {
    pub serial: String,
    /// `device`, `offline`, `unauthorized`, …
    pub state: String,
    /// The `model:Pixel_9_Pro` extra of `devices-l`, when present.
    pub model: Option<String>,
}

/// A [`Device`] with its text as characters.
pub struct DeviceModel {
    pub serial: Seq<char>,
    pub state: Seq<char>,
    pub model: Option<Seq<char>>,
}

impl View for Device {
    type V = DeviceModel;

    open spec fn view(&self) -> DeviceModel {
        DeviceModel {
            serial: self.serial@,
            state: self.state@,
            model: match self.model {
                Some(m) => Some(m@),
                None => None,
            },
        }
    }
}

impl Device {
    /// Whether this device is usable (neither offline nor unauthorized).
    pub fn is_ready(&self) -> (r: bool)
        ensures
            r == (self.state@ == "device"@),
    {
        text::same(&self.state, "device")
    }
}

/// The first `model:` extra among `parts`, with spaces for its underscores.
pub open spec fn model_of(parts: Seq<Seq<char>>) -> Option<Seq<char>>
    decreases parts.len(),
{
    if parts.len() == 0 {
        None
    } else {
        match after_prefix(parts[0], "model:"@) {
            Some(m) => Some(char_replaced(m, '_', ' ')),
            None => model_of(parts.skip(1)),
        }
    }
}

/// The device that the words `parts` of one line describe.
pub open spec fn device_of(parts: Seq<Seq<char>>) -> DeviceModel {
    DeviceModel {
        serial: parts[0],
        state: if parts.len() > 1 {
            parts[1]
        } else {
            "unknown"@
        },
        model: if parts.len() > 2 {
            model_of(parts.skip(2))
        } else {
            None
        },
    }
}

/// The devices that the lines `ls` describe: one for each line that is not blank.
pub open spec fn devices_of(ls: Seq<Seq<char>>) -> Seq<DeviceModel>
    decreases ls.len(),
{
    if ls.len() == 0 {
        Seq::empty()
    } else {
        let rest = devices_of(ls.drop_last());
        if words(ls.last()).len() > 0 {
            rest.push(device_of(words(ls.last())))
        } else {
            rest
        }
    }
}

/// Parses a `host:devices-l` payload.
pub fn parse_device_list(payload: &str) -> (r: Vec<Device>)
    ensures
        r@.map_values(|d: Device| d@) == devices_of(lines(payload@)),
{
    let ls = text::split_lines(payload);
    let mut out: Vec<Device> = Vec::new();
    let mut i: usize = 0;
    while i < ls.len()
        invariant
            i <= ls.len(),
            views(ls@) == lines(payload@),
            out@.map_values(|d: Device| d@) =~= devices_of(lines(payload@).take(i as int)),
        decreases ls.len() - i,
    {
        let ghost before = out@;
        proof {
            let all = lines(payload@);
            assert(all.take(i + 1).drop_last() =~= all.take(i as int));
            assert(all.take(i + 1).last() == views(ls@)[i as int]);
        }
        let parts = text::split_words(&ls[i]);
        if parts.len() > 0 {
            let d = device_from(&parts);
            out.push(d);
            assert(out@.map_values(|d: Device| d@) =~= before.map_values(|d: Device| d@).push(d@));
        }
        i += 1;
    }
    proof {
        assert(lines(payload@).take(i as int) =~= lines(payload@));
    }
    out
}

fn device_from(parts: &Vec<String>) -> (r: Device)
    requires
        parts@.len() > 0,
    ensures
        r@ == device_of(views(parts@)),
{
    let serial = parts[0].clone();
    let state = if parts.len() > 1 {
        parts[1].clone()
    } else {
        "unknown".to_owned()
    };
    let mut model: Option<String> = None;
    let mut i: usize = 2;
    let ghost all = views(parts@);
    while i < parts.len() && model.is_none()
        invariant
            2 <= i,
            i <= parts.len() || parts.len() < 2,
            all == views(parts@),
            parts@.len() > 2 ==> match model {
                Some(m) => Some(m@) == model_of(all.skip(2)),
                None => model_of(all.skip(2)) == model_of(all.skip(i as int)),
            },
            parts@.len() <= 2 ==> model is None,
        decreases parts.len() - i, (if model is None { 1int } else { 0int }),
    {
        proof {
            assert(all.skip(i as int)[0] == parts@[i as int]@);
            assert(all.skip(i as int).skip(1) =~= all.skip(i + 1));
        }
        match text::strip_prefix(&parts[i], "model:") {
            Some(m) => {
                model = Some(text::replace_char(m, '_', ' '));
            },
            None => {
                i += 1;
            },
        }
    }
    proof {
        if model is None && parts@.len() > 2 {
            assert(all.skip(i as int) =~= Seq::<Seq<char>>::empty());
        }
    }
    Device { serial, state, model }
}

// ---------------------------------------------------------------------------
// Wire format
// ---------------------------------------------------------------------------

/// `n` in hexadecimal, without leading zeros.
pub open spec fn hex_number(n: nat) -> Seq<char>
    decreases n,
{
    if n < 16 {
        seq![nibble(n)]
    } else {
        hex_number(n / 16).push(nibble(n % 16))
    }
}

/// `n` in hexadecimal, filled up with zeros to four digits.
pub open spec fn hex4(n: nat) -> Seq<char> {
    if n < 0x10000 {
        seq![nibble(n / 0x1000), nibble(n / 0x100 % 16), nibble(n / 16 % 16), nibble(n % 16)]
    } else {
        hex_number(n)
    }
}

/// The bytes of ASCII text.
pub open spec fn ascii(s: Seq<char>) -> Seq<u8> {
    s.map_values(|c: char| c as u8)
}

/// One message on the wire: its length, then itself.
pub open spec fn frame(payload: Seq<u8>) -> Seq<u8> {
    ascii(hex4(payload.len())) + payload
}

/// The number that the hexadecimal digits `s` write.
pub open spec fn hex_digits_value(s: Seq<u8>) -> Option<nat>
    decreases s.len(),
{
    if s.len() == 0 {
        Some(0)
    } else {
        match (hex_digits_value(s.drop_last()), nibble_value(s.last() as char)) {
            (Some(head), Some(d)) => Some(head * 16 + d),
            _ => None,
        }
    }
}

/// The payload length that a four-byte prefix announces in hexadecimal digits.
pub open spec fn announced(prefix: Seq<u8>) -> Option<nat> {
    hex_digits_value(prefix)
}

proof fn lemma_digits_bound(s: Seq<u8>)
    ensures
        s.len() <= 4 ==> (hex_digits_value(s) matches Some(v) ==> v < 0x10000),
        s.len() <= 3 ==> (hex_digits_value(s) matches Some(v) ==> v < 0x1000),
        s.len() <= 2 ==> (hex_digits_value(s) matches Some(v) ==> v < 0x100),
        s.len() <= 1 ==> (hex_digits_value(s) matches Some(v) ==> v < 0x10),
        s.len() <= 0 ==> (hex_digits_value(s) matches Some(v) ==> v < 1),
    decreases s.len(),
{
    if s.len() > 0 {
        lemma_digits_bound(s.drop_last());
    }
}

/// The payload length that a message's four-byte prefix announces, or `None` for a prefix that
/// writes no number. Four digits write at most 65535, which adb's own cap of 64 KiB allows.
pub fn message_length(prefix: &[u8]) -> (r: Option<usize>)
    requires
        prefix@.len() == 4,
    ensures
        (match r {
            Some(n) => Some(n as nat),
            None => None,
        }) == announced(prefix@),
        r matches Some(n) ==> n < 0x10000,
{
    let mut n: usize = 0;
    let mut i: usize = 0;
    proof {
        assert(prefix@.take(0) =~= Seq::empty());
    }
    while i < 4
        invariant
            i <= 4,
            prefix@.len() == 4,
            hex_digits_value(prefix@.take(i as int)) == Some(n as nat),
            n < 0x10000,
        decreases 4 - i,
    {
        proof {
            lemma_digits_bound(prefix@.take(i as int));
            lemma_digits_bound(prefix@.take(i + 1));
            assert(prefix@.take(i + 1).drop_last() =~= prefix@.take(i as int));
            assert(prefix@.take(i + 1).last() == prefix@[i as int]);
        }
        match hex::nibble_from(prefix[i] as char) {
            Some(d) => {
                n = n * 16 + d as usize;
            },
            None => {
                proof {
                    lemma_no_digit(prefix@, i as int);
                }
                return None;
            },
        }
        i += 1;
    }
    proof {
        assert(prefix@.take(4) =~= prefix@);
    }
    Some(n)
}

proof fn lemma_no_digit(t: Seq<u8>, k: int)
    requires
        0 <= k < t.len(),
        nibble_value(t[k] as char) is None,
    ensures
        hex_digits_value(t) is None,
    decreases t.len(),
{
    if k < t.len() - 1 {
        lemma_no_digit(t.drop_last(), k);
    }
}

fn hex_digit(n: usize) -> (r: u8)
    requires
        n < 16,
    ensures
        r as char == nibble(n as nat),
        r == nibble(n as nat) as u8,
{
    if n < 10 {
        48 + n as u8
    } else {
        87 + n as u8
    }
}

fn length_digits(n: usize) -> (r: Vec<u8>)
    ensures
        r@ == ascii(hex_number(n as nat)),
    decreases n,
{
    if n < 16 {
        let mut out: Vec<u8> = Vec::new();
        out.push(hex_digit(n));
        assert(out@ =~= ascii(hex_number(n as nat)));
        out
    } else {
        let mut out = length_digits(n / 16);
        out.push(hex_digit(n % 16));
        assert(out@ =~= ascii(hex_number(n as nat)));
        out
    }
}

/// One message as it goes over the wire.
pub fn encode_message(payload: &str) -> (r: Vec<u8>)
    ensures
        r@ == frame(encode_utf8(payload@)),
{
    let body = payload.as_bytes();
    let n: usize = body.len();
    let mut out: Vec<u8> = Vec::new();
    if n < 0x10000 {
        out.push(hex_digit(n / 0x1000));
        out.push(hex_digit(n / 0x100 % 16));
        out.push(hex_digit(n / 16 % 16));
        out.push(hex_digit(n % 16));
        assert(out@ =~= ascii(hex4(n as nat)));
    } else {
        out = length_digits(n);
    }
    let ghost head = out@;
    let mut i: usize = 0;
    while i < n
        invariant
            i <= n == body@.len(),
            out@ == head + body@.take(i as int),
        decreases n - i,
    {
        out.push(body[i]);
        i += 1;
        assert(out@ =~= head + body@.take(i as int));
    }
    assert(body@.take(n as int) =~= body@);
    out
}

/// A refusal as adb expects it: `FAIL`, then the reason as a message.
pub fn encode_fail(reason: &str) -> (r: Vec<u8>)
    ensures
        r@ == ascii("FAIL"@) + frame(encode_utf8(reason@)),
{
    let mut out: Vec<u8> = Vec::new();
    out.push(70);
    out.push(65);
    out.push(73);
    out.push(76);
    proof {
        reveal_strlit("FAIL");
        assert(out@ =~= ascii("FAIL"@));
    }
    let mut body = encode_message(reason);
    out.append(&mut body);
    out
}

/// What is done with a connection once its first request is in.
#[derive(Debug)]
pub enum GatePlan {
    /// Answer with these bytes and close; nothing goes to the adb server.
    Refuse { reply: Vec<u8> },
    /// Send these bytes to the adb server. `list` tells that the answer is a device list to
    /// filter, and whether it is one in a stream of them; otherwise the rest is spliced.
    Pass { send: Vec<u8>, list: Option<bool> },
}

/// Applies the sharing policy to a connection's first request.
pub fn gate(request: &str, targets: &Targets) -> (r: GatePlan)
    ensures
        match (verdict(request@, *targets), r) {
            (Verdict::Reject(why), GatePlan::Refuse { reply }) => reply@ == ascii("FAIL"@)
                + frame(encode_utf8(why)),
            (Verdict::Rewrite(to), GatePlan::Pass { send, list }) => send@ == frame(encode_utf8(to))
                && list is None,
            (Verdict::FilterList { streaming }, GatePlan::Pass { send, list }) => send@ == frame(
                encode_utf8(request@),
            ) && list == Some(streaming),
            (Verdict::Forward, GatePlan::Pass { send, list }) => send@ == frame(
                encode_utf8(request@),
            ) && list is None,
            _ => false,
        },
{
    match decide(request, targets) {
        Decision::Reject(why) => GatePlan::Refuse { reply: encode_fail(&why) },
        Decision::Rewrite(to) => GatePlan::Pass { send: encode_message(&to), list: None },
        Decision::FilterList { streaming } => GatePlan::Pass {
            send: encode_message(request),
            list: Some(streaming),
        },
        Decision::Forward => GatePlan::Pass { send: encode_message(request), list: None },
    }
}

/// One device list from the adb server, as it is handed on to the peer.
pub fn relay_list(payload: &str, targets: &Targets) -> (r: Vec<u8>)
    ensures
        r@ == frame(encode_utf8(filtered(payload@, *targets))),
{
    encode_message(&filter_device_list(payload, targets))
}

/// The four-byte prefix of a message announces the length of its payload (for payloads that
/// four digits can count).
pub proof fn law_a_frame_announces_its_payload(payload: Seq<u8>)
    requires
        payload.len() < 0x10000,
    ensures
        frame(payload).take(4).len() == 4,
        announced(frame(payload).take(4)) == Some(payload.len()),
        frame(payload).skip(4) == payload,
{
    let n = payload.len();
    let p = frame(payload).take(4);
    let head = ascii(hex4(n));
    assert(p =~= head);
    assert(frame(payload).skip(4) =~= payload);
    assert(p[0] == nibble(n / 0x1000) as u8);
    let a = p.drop_last();
    let b = a.drop_last();
    let c = b.drop_last();
    let d = c.drop_last();
    assert(d.len() == 0);
    assert(c.last() as char == nibble(n / 0x1000));
    assert(b.last() as char == nibble(n / 0x100 % 16));
    assert(a.last() as char == nibble(n / 16 % 16));
    assert(p.last() as char == nibble(n % 16));
    assert(hex_digits_value(d) == Some(0nat));
    assert(hex_digits_value(c) == Some(n / 0x1000));
    assert(hex_digits_value(b) == Some(n / 0x100));
    assert(hex_digits_value(a) == Some(n / 16));
}

/// The first message among some bytes, and what follows it: as many bytes behind the prefix as that
/// announces. None where the prefix announces nothing, or the bytes do not reach.
pub open spec fn first_message(bytes: Seq<u8>) -> Option<(Seq<u8>, Seq<u8>)> {
    if bytes.len() < 4 {
        None
    } else {
        match announced(bytes.take(4)) {
            Some(n) => if bytes.len() - 4 >= n {
                Some((bytes.subrange(4, 4 + n as int), bytes.skip(4 + n as int)))
            } else {
                None
            },
            None => None,
        }
    }
}

/// A message reads back as itself, whatever follows it on the wire (for payloads that four digits
/// can count).
pub proof fn law_a_message_reads_back_as_itself(payload: Seq<char>, rest: Seq<u8>)
    requires
        encode_utf8(payload).len() < 0x10000,
    ensures
        first_message(frame(encode_utf8(payload)) + rest) == Some((encode_utf8(payload), rest)),
        decode_utf8(encode_utf8(payload)) == payload,
{
    let body = encode_utf8(payload);
    let n = body.len() as int;
    let bytes = frame(body) + rest;
    law_a_frame_announces_its_payload(body);
    assert(bytes.take(4) =~= frame(body).take(4));
    assert(bytes.subrange(4, 4 + n) =~= frame(body).skip(4));
    assert(bytes.skip(4 + n) =~= rest);
    vstd::utf8::encode_utf8_decode_utf8(payload);
}

// ---------------------------------------------------------------------------
// What the policy guarantees
// ---------------------------------------------------------------------------

/// Whatever is shared, a request to stop the host's adb server is refused.
pub proof fn law_kill_is_always_refused(request: Seq<char>, targets: Targets)
    requires
        is_kill(without_trailing(request, '\0')),
    ensures
        verdict(request, targets) is Reject,
{
}

/// Whatever is shared, a request to attach or detach a device is refused.
pub proof fn law_attaching_is_always_refused(request: Seq<char>, targets: Targets)
    requires
        is_attach(without_trailing(request, '\0')),
    ensures
        verdict(request, targets) is Reject,
{
}

/// A device that is not shared cannot be named as a transport.
pub proof fn law_an_unshared_device_is_refused(
    request: Seq<char>,
    targets: Targets,
    serial: Seq<char>,
)
    requires
        named_transport(without_trailing(request, '\0')) == Some(serial),
        !targets.permits(serial),
    ensures
        verdict(request, targets) is Reject,
{
    let req = without_trailing(request, '\0');
    reveal_strlit("host:transport:");
    reveal_strlit("host:tport:serial:");
    reveal_strlit("host:devices");
    reveal_strlit("host:devices-l");
    reveal_strlit("host:track-devices");
    reveal_strlit("host:track-devices-l");
    if "host:transport:"@.is_prefix_of(req) {
        assert(req[8] == "host:transport:"@[8]);
        assert(req[5] == "host:transport:"@[5]);
    } else {
        assert(req[5] == "host:tport:serial:"@[5]);
        assert(req[6] == "host:tport:serial:"@[6]);
    }
}

/// A rewritten request names a device, and that device is shared.
pub proof fn law_a_rewrite_names_a_shared_device(request: Seq<char>, targets: Targets)
    requires
        verdict(request, targets) is Rewrite,
    ensures
        exists|serial: Seq<char>| #[trigger]
            targets.permits(serial) && (verdict(request, targets)->Rewrite_0
                == "host:transport:"@ + serial || verdict(request, targets)->Rewrite_0
                == "host:tport:serial:"@ + serial),
{
    if let Targets::Only(list) = targets {
        assert(views(list@)[0] == list@[0]@);
        assert(targets.permits(list@[0]@));
    }
}

/// A rewritten request is one that the policy forwards (for serials without a trailing NUL,
/// which the wire format would cut off).
pub proof fn law_a_rewrite_is_forwarded(request: Seq<char>, targets: Targets)
    requires
        verdict(request, targets) is Rewrite,
        targets matches Targets::Only(list) && list@[0]@.len() > 0 && list@[0]@.last() != '\0',
    ensures
        verdict(verdict(request, targets)->Rewrite_0, targets) is Forward,
{
    let to = verdict(request, targets)->Rewrite_0;
    if let Targets::Only(list) = targets {
        let serial = list@[0]@;
        assert(views(list@)[0] == serial);
        assert(targets.permits(serial));
        assert(to.last() == serial.last());
        assert(without_trailing(to, '\0') == to);
        reveal_strlit("host:transport:");
        reveal_strlit("host:tport:serial:");
        reveal_strlit("host:kill");
        reveal_strlit("host:connect:");
        reveal_strlit("host:disconnect");
        reveal_strlit("host:devices");
        reveal_strlit("host:devices-l");
        reveal_strlit("host:track-devices");
        reveal_strlit("host:track-devices-l");
        if to == "host:transport:"@ + serial {
            assert(to[5] == 't' && to[6] == 'r' && to[7] == 'a' && to[8] == 'n');
            assert("host:transport:"@.is_prefix_of(to));
            assert(to.skip(15) =~= serial);
        } else {
            assert(to[5] == 't' && to[6] == 'p');
            assert(!"host:transport:"@.is_prefix_of(to)) by {
                if "host:transport:"@.is_prefix_of(to) {
                    assert(to[6] == "host:transport:"@[6]);
                }
            }
            assert("host:tport:serial:"@.is_prefix_of(to));
            assert(to.skip(18) =~= serial);
        }
        assert(!is_attach(to)) by {
            if "host:connect:"@.is_prefix_of(to) {
                assert(to[5] == "host:connect:"@[5]);
            }
            if "host:disconnect"@.is_prefix_of(to) {
                assert(to[5] == "host:disconnect"@[5]);
            }
        }
        assert("host:track-devices"@[7] == 'a' && "host:track-devices"@[8] == 'c');
    }
}

proof fn lemma_shared_lines(ls: Seq<Seq<char>>, targets: Targets)
    requires
        forall|i: int, j: int| 0 <= i < ls.len() && 0 <= j < ls[i].len() ==> ls[i][j] != '\n',
    ensures
        ({
            let s = shared_lines(ls, targets);
            &&& s.len() > 0 ==> s.last() == '\n'
            &&& forall|i: int| 0 <= i < lines(s).len() ==> line_shared(#[trigger] lines(s)[i], targets)
        }),
    decreases ls.len(),
{
    reveal_strlit("\n");
    if ls.len() > 0 {
        lemma_shared_lines(ls.drop_last(), targets);
        let rest = shared_lines(ls.drop_last(), targets);
        let l = ls.last();
        if line_shared(l, targets) {
            let tail = l + "\n"@;
            assert(rest + l + "\n"@ =~= rest + tail);
            text::lemma_lines_concat(rest, tail);
            text::lemma_one_line(l);
            assert(tail =~= l.push('\n'));
            text::lemma_first_word_without_cr(l);
            assert forall|i: int| 0 <= i < lines(rest + tail).len() implies line_shared(
                #[trigger] lines(rest + tail)[i],
                targets,
            ) by {
                if i < lines(rest).len() {
                    assert(lines(rest + tail)[i] == lines(rest)[i]);
                } else {
                    assert(lines(rest + tail)[i] == text::without_cr(l));
                }
            }
        }
    }
}

/// Where not everything is shared, each line of a filtered device list is about a shared device.
pub proof fn law_a_filtered_list_shows_only_shared_devices(payload: Seq<char>, targets: Targets)
    requires
        targets is Only,
    ensures
        forall|i: int|
            0 <= i < lines(filtered(payload, targets)).len() ==> line_shared(
                #[trigger] lines(filtered(payload, targets))[i],
                targets,
            ),
{
    text::lemma_lines_hold_no_line_feed(payload);
    lemma_shared_lines(lines(payload), targets);
}

/// The lines about shared devices.
spec fn kept_lines(ls: Seq<Seq<char>>, targets: Targets) -> Seq<Seq<char>>
    decreases ls.len(),
{
    if ls.len() == 0 {
        Seq::empty()
    } else {
        let rest = kept_lines(ls.drop_last(), targets);
        if line_shared(ls.last(), targets) {
            rest.push(ls.last())
        } else {
            rest
        }
    }
}

proof fn lemma_kept_lines(ls: Seq<Seq<char>>, targets: Targets)
    requires
        forall|i: int, j: int| 0 <= i < ls.len() && 0 <= j < ls[i].len() ==> ls[i][j] != '\n',
        forall|i: int|
            0 <= i < ls.len() && line_shared(#[trigger] ls[i], targets) && ls[i].len() > 0
                ==> ls[i].last() != '\r',
    ensures
        lines(shared_lines(ls, targets)) == kept_lines(ls, targets),
        shared_lines(kept_lines(ls, targets), targets) == shared_lines(ls, targets),
    decreases ls.len(),
{
    reveal_strlit("\n");
    if ls.len() == 0 {
        assert(lines(Seq::<char>::empty()) =~= Seq::empty());
    } else {
        let init = ls.drop_last();
        assert forall|i: int|
            0 <= i < init.len() && line_shared(#[trigger] init[i], targets) && init[i].len()
                > 0 implies init[i].last() != '\r' by {
            assert(init[i] == ls[i]);
        }
        lemma_kept_lines(init, targets);
        lemma_shared_lines(init, targets);
        let rest = shared_lines(init, targets);
        let l = ls.last();
        assert(ls[ls.len() - 1] == l);
        if line_shared(l, targets) {
            let tail = l + "\n"@;
            assert(rest + l + "\n"@ =~= rest + tail);
            text::lemma_lines_concat(rest, tail);
            text::lemma_one_line(l);
            assert(tail =~= l.push('\n'));
            assert(text::without_cr(l) == l);
            let kept = kept_lines(init, targets);
            assert(kept + seq![l] =~= kept.push(l));
            assert(kept.push(l).drop_last() =~= kept);
        }
    }
}

/// Filtering a device list twice is filtering it once (for lists in which no line about a shared
/// device ends with a carriage return before its line break, one of which would be lost each time).
pub proof fn law_filtering_twice_is_filtering_once(payload: Seq<char>, targets: Targets)
    requires
        forall|i: int|
            0 <= i < lines(payload).len() && line_shared(#[trigger] lines(payload)[i], targets)
                && lines(payload)[i].len() > 0 ==> lines(payload)[i].last() != '\r',
    ensures
        filtered(filtered(payload, targets), targets) == filtered(payload, targets),
{
    if targets is Only {
        text::lemma_lines_hold_no_line_feed(payload);
        lemma_kept_lines(lines(payload), targets);
    }
}

/// A device is shared where everything is, or where its serial is one of those that are named.
pub proof fn law_a_shared_device_is_named(targets: Targets, serial: Seq<char>)
    ensures
        targets is All ==> targets.permits(serial),
        targets matches Targets::Only(list) ==> (targets.permits(serial) <==> exists|i: int|
            0 <= i < list@.len() && (#[trigger] list@[i])@ == serial),
{
    if let Targets::Only(list) = targets {
        if targets.permits(serial) {
            let i = choose|i: int| 0 <= i < views(list@).len() && views(list@)[i] == serial;
            assert(list@[i]@ == serial);
        }
        if exists|i: int| 0 <= i < list@.len() && (#[trigger] list@[i])@ == serial {
            let i = choose|i: int| 0 <= i < list@.len() && (#[trigger] list@[i])@ == serial;
            assert(views(list@)[i] == serial);
        }
    }
}

/// A request that names its device as the transport goes on exactly where that device is shared.
pub proof fn law_a_transport_goes_to_a_shared_device(
    request: Seq<char>,
    targets: Targets,
    serial: Seq<char>,
)
    requires
        without_trailing(request, '\0') == "host:transport:"@ + serial || without_trailing(
            request,
            '\0',
        ) == "host:tport:serial:"@ + serial,
    ensures
        targets.permits(serial) ==> verdict(request, targets) is Forward,
        !targets.permits(serial) ==> verdict(request, targets) is Reject,
{
    let req = without_trailing(request, '\0');
    reveal_strlit("host:transport:");
    reveal_strlit("host:tport:serial:");
    reveal_strlit("host:kill");
    reveal_strlit("host:connect:");
    reveal_strlit("host:disconnect");
    reveal_strlit("host:devices");
    reveal_strlit("host:devices-l");
    reveal_strlit("host:track-devices");
    reveal_strlit("host:track-devices-l");
    if req == "host:transport:"@ + serial {
        assert(req.take(15) =~= "host:transport:"@);
        assert(req.skip(15) =~= serial);
        assert(req[5] == 't' && req[6] == 'r' && req[8] == 'n');
    } else {
        assert(req.take(18) =~= "host:tport:serial:"@);
        assert(req.skip(18) =~= serial);
        assert(req[5] == 't' && req[6] == 'p');
        assert(!"host:transport:"@.is_prefix_of(req)) by {
            if "host:transport:"@.is_prefix_of(req) {
                assert(req[6] == "host:transport:"@[6]);
            }
        }
    }
    assert(!is_attach(req)) by {
        if "host:connect:"@.is_prefix_of(req) {
            assert(req[5] == "host:connect:"@[5]);
        }
        if "host:disconnect"@.is_prefix_of(req) {
            assert(req[5] == "host:disconnect"@[5]);
        }
    }
    assert("host:kill"@[5] == 'k' && "host:devices"@[5] == 'd' && "host:devices-l"@[5] == 'd');
    assert("host:track-devices"@[8] == 'c' && "host:track-devices-l"@[8] == 'c');
    assert("host:track-devices"@[6] == 'r' && "host:track-devices-l"@[6] == 'r');
}

/// A request that puts its device before the command goes on exactly where everything is shared or
/// it begins with a shared serial and a colon.
pub proof fn law_a_serial_request_goes_to_a_shared_device(
    request: Seq<char>,
    targets: Targets,
    rest: Seq<char>,
)
    requires
        without_trailing(request, '\0') == "host-serial:"@ + rest,
    ensures
        targets is All ==> verdict(request, targets) is Forward,
        targets matches Targets::Only(list) ==> if exists|i: int|
            0 <= i < list@.len() && ((#[trigger] list@[i])@ + ":"@).is_prefix_of(rest) {
            verdict(request, targets) is Forward
        } else {
            verdict(request, targets) is Reject
        },
{
    let req = without_trailing(request, '\0');
    reveal_strlit("host-serial:");
    reveal_strlit("host:transport:");
    reveal_strlit("host:tport:serial:");
    reveal_strlit("host:kill");
    reveal_strlit("host:connect:");
    reveal_strlit("host:disconnect");
    reveal_strlit("host:devices");
    reveal_strlit("host:devices-l");
    reveal_strlit("host:track-devices");
    reveal_strlit("host:track-devices-l");
    assert(req.take(12) =~= "host-serial:"@);
    assert(req.skip(12) =~= rest);
    assert(req[4] == '-');
    assert(!"host:connect:"@.is_prefix_of(req)) by {
        if "host:connect:"@.is_prefix_of(req) {
            assert(req[4] == "host:connect:"@[4]);
        }
    }
    assert(!"host:disconnect"@.is_prefix_of(req)) by {
        if "host:disconnect"@.is_prefix_of(req) {
            assert(req[4] == "host:disconnect"@[4]);
        }
    }
    assert(!"host:transport:"@.is_prefix_of(req)) by {
        if "host:transport:"@.is_prefix_of(req) {
            assert(req[4] == "host:transport:"@[4]);
        }
    }
    assert(!"host:tport:serial:"@.is_prefix_of(req)) by {
        if "host:tport:serial:"@.is_prefix_of(req) {
            assert(req[4] == "host:tport:serial:"@[4]);
        }
    }
    assert("host:kill"@[4] == ':' && "host:devices"@[4] == ':' && "host:devices-l"@[4] == ':');
    assert("host:track-devices"@[4] == ':' && "host:track-devices-l"@[4] == ':');
    if let Targets::Only(list) = targets {
        if addresses_shared(rest, targets) {
            let i = choose|i: int| 0 <= i < list@.len() && addresses(rest, #[trigger] views(list@)[i]);
            assert((list@[i]@ + ":"@).is_prefix_of(rest));
        }
        if exists|i: int| 0 <= i < list@.len() && ((#[trigger] list@[i])@ + ":"@).is_prefix_of(rest) {
            let i = choose|i: int|
                0 <= i < list@.len() && ((#[trigger] list@[i])@ + ":"@).is_prefix_of(rest);
            assert(addresses(rest, views(list@)[i]));
        }
    }
}

/// What would stop the host's adb server, or attach and detach its devices, is refused by its own
/// words, whatever is shared; the device lists are filtered, and the ones that go on are filtered
/// as long as they do.
pub proof fn law_the_host_is_left_alone(request: Seq<char>, targets: Targets)
    ensures
        ({
            let req = without_trailing(request, '\0');
            let v = verdict(request, targets);
            &&& req == "host:kill"@ ==> v is Reject
            &&& "host:connect:"@.is_prefix_of(req) ==> v is Reject
            &&& "host:disconnect"@.is_prefix_of(req) ==> v is Reject
            &&& req == "host:devices"@ || req == "host:devices-l"@ ==> v == (Verdict::FilterList {
                streaming: false,
            })
            &&& req == "host:track-devices"@ || req == "host:track-devices-l"@ ==> v == (
            Verdict::FilterList { streaming: true })
        }),
{
    let req = without_trailing(request, '\0');
    reveal_strlit("host:kill");
    reveal_strlit("host:connect:");
    reveal_strlit("host:disconnect");
    reveal_strlit("host:devices");
    reveal_strlit("host:devices-l");
    reveal_strlit("host:track-devices");
    reveal_strlit("host:track-devices-l");
    if "host:connect:"@.is_prefix_of(req) {
        assert(req[5] == "host:connect:"@[5]);
    }
    if "host:disconnect"@.is_prefix_of(req) {
        assert(req[6] == "host:disconnect"@[6]);
        assert(req[5] == "host:disconnect"@[5]);
    }
    assert("host:devices"@[6] == 'e' && "host:devices-l"@[6] == 'e');
    assert("host:kill"@[5] == 'k');
    assert("host:track-devices"@[5] == 't' && "host:track-devices-l"@[5] == 't');
    assert("host:devices"@[5] == 'd' && "host:devices-l"@[5] == 'd');
}

/// A request for whichever device there is goes on as it is where everything is shared, to the one
/// shared device where there is one, and is refused otherwise, for the peer to name one.
pub proof fn law_whichever_device_is_a_shared_one(request: Seq<char>, targets: Targets)
    ensures
        ({
            let req = without_trailing(request, '\0');
            let v = verdict(request, targets);
            &&& (req == "host:transport-any"@ || req == "host:transport-usb"@ || req
                == "host:transport-local"@) ==> match targets {
                Targets::All => v is Forward,
                Targets::Only(list) => if list@.len() == 1 {
                    v == Verdict::Rewrite("host:transport:"@ + list@[0]@)
                } else {
                    v is Reject
                },
            }
            &&& (req == "host:tport:any"@ || req == "host:tport:usb"@ || req
                == "host:tport:local"@) ==> match targets {
                Targets::All => v is Forward,
                Targets::Only(list) => if list@.len() == 1 {
                    v == Verdict::Rewrite("host:tport:serial:"@ + list@[0]@)
                } else {
                    v is Reject
                },
            }
        }),
{
    let req = without_trailing(request, '\0');
    reveal_strlit("host:transport-any");
    reveal_strlit("host:transport-usb");
    reveal_strlit("host:transport-local");
    reveal_strlit("host:tport:any");
    reveal_strlit("host:tport:usb");
    reveal_strlit("host:tport:local");
    reveal_strlit("host:tport:");
    reveal_strlit("host-serial:");
    reveal_strlit("host:transport:");
    reveal_strlit("host:tport:serial:");
    reveal_strlit("host:kill");
    reveal_strlit("host:connect:");
    reveal_strlit("host:disconnect");
    reveal_strlit("host:devices");
    reveal_strlit("host:devices-l");
    reveal_strlit("host:track-devices");
    reveal_strlit("host:track-devices-l");
    if is_unqualified(req) {
        assert(req.len() >= 14 && req[4] == ':' && req[5] == 't' && (req[6] == 'r' || req[6] == 'p'));
        assert(req[6] == 'r' ==> req[8] == 'n' && req[14] == '-');
        assert(req[6] == 'p' ==> req[7] == 'o' && req[11] != 's');
        assert(!"host:connect:"@.is_prefix_of(req)) by {
            if "host:connect:"@.is_prefix_of(req) {
                assert(req[5] == "host:connect:"@[5]);
            }
        }
        assert(!"host:disconnect"@.is_prefix_of(req)) by {
            if "host:disconnect"@.is_prefix_of(req) {
                assert(req[5] == "host:disconnect"@[5]);
            }
        }
        assert(!"host:transport:"@.is_prefix_of(req)) by {
            if "host:transport:"@.is_prefix_of(req) {
                assert(req[6] == "host:transport:"@[6]);
                assert(req[14] == "host:transport:"@[14]);
            }
        }
        assert(!"host:tport:serial:"@.is_prefix_of(req)) by {
            if "host:tport:serial:"@.is_prefix_of(req) {
                assert(req[6] == "host:tport:serial:"@[6]);
                assert(req[11] == "host:tport:serial:"@[11]);
            }
        }
        assert(!"host-serial:"@.is_prefix_of(req)) by {
            if "host-serial:"@.is_prefix_of(req) {
                assert(req[4] == "host-serial:"@[4]);
            }
        }
        assert("host:tport:"@.is_prefix_of(req) <==> req[6] == 'p') by {
            if "host:tport:"@.is_prefix_of(req) {
                assert(req[6] == "host:tport:"@[6]);
            }
            if req[6] == 'p' {
                assert("host:tport:"@ =~= req.take(11));
            }
        }
        assert("host:kill"@[5] == 'k' && "host:devices"@[5] == 'd' && "host:devices-l"@[5] == 'd');
        assert("host:track-devices"@[6] == 'r' && "host:track-devices"@[8] == 'c');
        assert("host:track-devices-l"@[6] == 'r' && "host:track-devices-l"@[8] == 'c');
    }
}

/// A filtered list loses no shared device: each line whose first word is a shared serial stands in
/// it, in the order of the lines, and it is the whole list where everything is shared.
pub proof fn law_a_filtered_list_keeps_shared_devices(payload: Seq<char>, targets: Targets, i: int)
    requires
        0 <= i < lines(payload).len(),
        words(lines(payload)[i]).len() > 0,
        targets.permits(words(lines(payload)[i])[0]),
    ensures
        targets is All ==> filtered(payload, targets) == payload,
        targets is Only ==> {
            let head = shared_lines(lines(payload).take(i), targets);
            let line = lines(payload)[i];
            &&& (head + line + "\n"@).is_prefix_of(filtered(payload, targets))
        },
{
    lemma_shared_line_stays(lines(payload), targets, i);
}

proof fn lemma_shared_line_stays(ls: Seq<Seq<char>>, targets: Targets, i: int)
    requires
        0 <= i < ls.len(),
        line_shared(ls[i], targets),
    ensures
        (shared_lines(ls.take(i), targets) + ls[i] + "\n"@).is_prefix_of(shared_lines(ls, targets)),
    decreases ls.len(),
{
    let init = ls.drop_last();
    let mine = shared_lines(ls.take(i), targets) + ls[i] + "\n"@;
    let all = shared_lines(ls, targets);
    if i == ls.len() - 1 {
        assert(ls.take(i) =~= init);
        assert(mine =~= all.take(mine.len() as int));
    } else {
        lemma_shared_line_stays(init, targets, i);
        assert(init.take(i) =~= ls.take(i));
        let was = shared_lines(init, targets);
        assert(was =~= all.take(was.len() as int));
        assert(mine =~= was.take(mine.len() as int));
        assert(mine =~= all.take(mine.len() as int));
    }
}

/// A device list reads as one device for each line that is not blank, in order: its serial is the
/// line's first word and its state the second, or unknown.
pub proof fn law_each_line_is_a_device(ls: Seq<Seq<char>>, l: Seq<char>)
    ensures
        words(l).len() == 0 ==> devices_of(ls.push(l)) == devices_of(ls),
        words(l).len() > 0 ==> {
            let now = devices_of(ls.push(l));
            &&& now.len() == devices_of(ls).len() + 1
            &&& now.drop_last() == devices_of(ls)
            &&& now.last().serial == words(l)[0]
            &&& words(l).len() > 1 ==> now.last().state == words(l)[1]
            &&& words(l).len() == 1 ==> now.last().state == "unknown"@
            &&& words(l).len() <= 2 ==> now.last().model is None
        },
        devices_of(Seq::empty()).len() == 0,
{
    assert(ls.push(l).drop_last() =~= ls);
    if words(l).len() > 0 {
        assert(devices_of(ls.push(l)).drop_last() =~= devices_of(ls));
    }
}

/// A device's model is that of the first extra that names one, its underscores read as spaces.
pub proof fn law_the_first_model_counts(parts: Seq<Seq<char>>, k: int, m: Seq<char>)
    requires
        0 <= k <= parts.len(),
        forall|j: int| 0 <= j < k ==> !"model:"@.is_prefix_of(#[trigger] parts[j]),
        k < parts.len() ==> parts[k] == "model:"@ + m,
    ensures
        k == parts.len() ==> model_of(parts) is None,
        k < parts.len() ==> {
            &&& model_of(parts) is Some
            &&& model_of(parts)->0.len() == m.len()
            &&& forall|i: int|
                0 <= i < m.len() ==> #[trigger] model_of(parts)->0[i] == if m[i] == '_' {
                    ' '
                } else {
                    m[i]
                }
        },
    decreases k,
{
    if k > 0 {
        let rest = parts.skip(1);
        assert forall|j: int| 0 <= j < k - 1 implies !"model:"@.is_prefix_of(#[trigger] rest[j]) by {
            assert(rest[j] == parts[j + 1]);
        }
        assert(!"model:"@.is_prefix_of(parts[0]));
        law_the_first_model_counts(rest, k - 1, m);
    } else if parts.len() > 0 {
        let n = "model:"@.len() as int;
        assert(parts[0].take(n) =~= "model:"@);
        assert(parts[0].skip(n) =~= m);
    }
}

/// What is said of the shared devices names them all, or says that all are shared; a refusal names
/// the device that was asked for and then these.
pub proof fn law_shared_devices_are_named(list: Vec<String>, serial: Seq<char>)
    ensures
        Targets::All.description() == "all attached devices"@,
        Targets::Only(list).description() == joined(views(list@), ", "@),
        not_shared_text(serial, Targets::Only(list)) == "device `"@ + serial
            + "` is not shared by this host (sharing: "@ + joined(views(list@), ", "@) + ")"@,
{
}

} // verus!
