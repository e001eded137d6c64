//! The connections of phones: which connection a device has, and which commands on it await their
//! acknowledgement.
//!
//! The hub decides; whoever owns the sockets delivers. A connection is told by its generation, and
//! what the hub has settled is taken from it with [`Hub::take_settled`] and [`Hub::take_closing`].

use vstd::prelude::*;

use crate::protocol::{Action, ServerToPhone};
use crate::table::Table;
use crate::text;
#[allow(unused_imports)]
use crate::text::{decimal, views};

verus! {

/// Seconds within which a command must be acknowledged.
pub const CMD_TIMEOUT_SECS: u64 = 10;

/// One connected phone.
#[derive(Debug)]
pub struct Conn {
    /// Tells this connection from earlier and later ones of the same device.
    pub gen: u64,
    /// The commands that await their acknowledgement, oldest first.
    pub acks: Vec<String>,
}

/// A command whose outcome is known.
#[derive(Debug)]
pub struct Settled {
    /// The connection on which the command was sent.
    pub gen: u64,
    pub cmd_id: String,
    pub result: Result<(), String>,
}

/// A [`Settled`] with its texts as characters.
pub struct SettledModel {
    pub gen: u64,
    pub cmd_id: Seq<char>,
    pub result: Result<(), Seq<char>>,
}

impl View for Settled {
    type V = SettledModel;

    open spec fn view(&self) -> SettledModel {
        SettledModel {
            gen: self.gen,
            cmd_id: self.cmd_id@,
            result: match self.result {
                Ok(u) => Ok(u),
                Err(e) => Err(e@),
            },
        }
    }
}

/// The settled commands of a list, each as a model.
pub open spec fn settled_models(v: Seq<Settled>) -> Seq<SettledModel> {
    v.map_values(|s: Settled| s@)
}

/// The commands of a connection, all of them failed for one reason.
pub open spec fn failed_all(gen: u64, acks: Seq<Seq<char>>, why: Seq<char>) -> Seq<SettledModel> {
    acks.map_values(|id: Seq<char>| SettledModel { gen, cmd_id: id, result: Err(why) })
}

/// A list without the first `x` in it.
pub open spec fn without_first(s: Seq<Seq<char>>, x: Seq<char>) -> Seq<Seq<char>>
    decreases s.len(),
{
    if s.len() == 0 {
        s
    } else if s[0] == x {
        s.skip(1)
    } else {
        seq![s[0]] + without_first(s.skip(1), x)
    }
}

/// A command to be sent.
#[derive(Debug)]
pub struct Dispatch {
    /// The connection to send it on.
    pub gen: u64,
    pub cmd_id: String,
    pub frame: ServerToPhone,
}

/// The connections of all phones.
pub struct Hub {
    pub conns: Table<Conn>,
    /// The number of the next command.
    pub seq: u64,
    /// The next generation.
    pub conn_gen: u64,
    /// Commands settled and not taken yet, oldest first.
    pub settled: Vec<Settled>,
    /// Connections to be closed and not taken yet, oldest first.
    pub closing: Vec<u64>,
}

/// The number after `n`, round the end of the range.
pub open spec fn next_number(n: u64) -> u64 {
    if n == u64::MAX {
        0
    } else {
        (n + 1) as u64
    }
}

/// The connections of a hub, the commands settled and the connections to be closed.
pub struct Connections {
    pub conns: Map<Seq<char>, Conn>,
    pub settled: Seq<SettledModel>,
    pub closing: Seq<u64>,
}

/// The connections without that of a device: its commands have failed, and it is to be closed.
pub open spec fn with_dropped(c: Connections, device_id: Seq<char>) -> Connections {
    if c.conns.dom().contains(device_id) {
        let prev = c.conns[device_id];
        Connections {
            conns: c.conns.remove(device_id),
            settled: c.settled + failed_all(prev.gen, views(prev.acks@), "device disconnected"@),
            closing: c.closing.push(prev.gen),
        }
    } else {
        c
    }
}

/// The connections without those of some devices, dropped one after another.
pub open spec fn with_all_dropped(c: Connections, devices: Seq<Seq<char>>) -> Connections
    decreases devices.len(),
{
    if devices.len() == 0 {
        c
    } else {
        with_dropped(with_all_dropped(c, devices.drop_last()), devices.last())
    }
}

/// The name of the command with number `n`.
pub open spec fn cmd_name(n: u64) -> Seq<char> {
    "c-"@ + decimal(n as nat)
}

impl Hub {
    /// A hub without connections.
    pub fn new() -> (r: Self)
        ensures
            r.conns@ == Map::<Seq<char>, Conn>::empty(),
            r.seq == 1,
            r.conn_gen == 1,
            r.settled@.len() == 0,
            r.closing@.len() == 0,
    {
        Hub { conns: Table::new(), seq: 1, conn_gen: 1, settled: Vec::new(), closing: Vec::new() }
    }

    /// Whether every connection is older than the next one.
    pub open spec fn gens_below(self) -> bool {
        forall|d: Seq<char>| #[trigger]
            self.conns@.dom().contains(d) ==> self.conns@[d].gen < self.conn_gen
    }

    /// Whether the hub has become `next` by registering a device's new connection: it is the
    /// newest, awaits nothing, and takes the place of an earlier one, whose commands fail and
    /// which is to be closed. Other devices keep theirs.
    pub open spec fn registers(self, device_id: Seq<char>, next: Hub) -> bool {
        &&& next.conn_gen == next_number(self.conn_gen)
        &&& next.seq == self.seq
        &&& next.conns@.dom() == self.conns@.dom().insert(device_id)
        &&& next.conns@[device_id].gen == self.conn_gen
        &&& next.conns@[device_id].acks@.len() == 0
        &&& forall|d: Seq<char>|
            d != device_id && self.conns@.dom().contains(d) ==> #[trigger] next.conns@[d]
                == self.conns@[d]
        &&& self.conns@.dom().contains(device_id) ==> {
            let prev = self.conns@[device_id];
            &&& settled_models(next.settled@) == settled_models(self.settled@) + failed_all(
                prev.gen,
                views(prev.acks@),
                "connection superseded"@,
            )
            &&& next.closing@ == self.closing@.push(prev.gen)
        }
        &&& !self.conns@.dom().contains(device_id) ==> {
            &&& next.settled == self.settled
            &&& next.closing == self.closing
        }
    }

    /// Registers a device's new connection and tells its generation. It takes the place of an
    /// earlier connection: that one's commands fail, and it is to be closed.
    pub fn register(&mut self, device_id: &str) -> (r: u64)
        ensures
            r == old(self).conn_gen,
            old(self).registers(device_id@, *final(self)),
    {
        let gen: u64 = self.conn_gen;
        self.conn_gen = if gen == u64::MAX {
            0
        } else {
            gen + 1
        };
        let ghost m = self.conns@;
        if let Some(prev) = self.conns.remove(device_id) {
            self.fail_all(prev.gen, prev.acks, "connection superseded");
            self.closing.push(prev.gen);
        }
        self.conns.insert(device_id.to_owned(), Conn { gen, acks: Vec::new() });
        proof {
            assert(self.conns@.dom() =~= m.dom().insert(device_id@));
        }
        gen
    }

    fn fail_all(&mut self, gen: u64, acks: Vec<String>, why: &str)
        ensures
            settled_models(final(self).settled@) == settled_models(old(self).settled@)
                + failed_all(gen, views(acks@), why@),
            *final(self) == (Hub { settled: final(self).settled, ..*old(self) }),
    {
        let ghost had = settled_models(self.settled@);
        let ghost all = failed_all(gen, views(acks@), why@);
        let mut i: usize = 0;
        proof {
            assert(had + all.take(0) =~= had);
        }
        while i < acks.len()
            invariant
                i <= acks.len(),
                all == failed_all(gen, views(acks@), why@),
                settled_models(self.settled@) == had + all.take(i as int),
                *self == (Hub { settled: self.settled, ..*old(self) }),
            decreases acks.len() - i,
        {
            let s = Settled { gen, cmd_id: acks[i].clone(), result: Err(why.to_owned()) };
            proof {
                assert(s@ == all[i as int]);
                assert(settled_models(self.settled@.push(s)) =~= settled_models(self.settled@).push(
                    s@,
                ));
                assert(all.take(i + 1) =~= all.take(i as int).push(s@));
                assert((had + all.take(i as int)).push(s@) =~= had + all.take(i + 1));
            }
            self.settled.push(s);
            i += 1;
        }
        proof {
            assert(all.take(i as int) =~= all);
        }
    }

    /// Whether `gen` is the connection that a device has.
    pub open spec fn is_current(self, device_id: Seq<char>, gen: u64) -> bool {
        self.conns@.dom().contains(device_id) && self.conns@[device_id].gen == gen
    }

    /// Whether the hub has become `next` by losing a device's connection: its commands fail.
    pub open spec fn unregisters(self, device_id: Seq<char>, next: Hub) -> bool {
        &&& next.conns@ == self.conns@.remove(device_id)
        &&& settled_models(next.settled@) == settled_models(self.settled@) + failed_all(
            self.conns@[device_id].gen,
            views(self.conns@[device_id].acks@),
            "device disconnected"@,
        )
        &&& next == (Hub { conns: next.conns, settled: next.settled, ..self })
    }

    /// Removes a connection and fails its commands, unless a newer connection has taken its
    /// place. Tells whether it was removed.
    pub fn unregister(&mut self, device_id: &str, gen: u64) -> (r: bool)
        ensures
            r == old(self).is_current(device_id@, gen),
            !r ==> *final(self) == *old(self),
            r ==> old(self).unregisters(device_id@, *final(self)),
    {
        let current = match self.conns.get(device_id) {
            Some(c) => c.gen == gen,
            None => false,
        };
        if current {
            if let Some(c) = self.conns.remove(device_id) {
                self.fail_all(gen, c.acks, "device disconnected");
            }
        }
        current
    }

    /// The connections, the settled commands and what is to be closed.
    pub open spec fn shown(self) -> Connections {
        Connections {
            conns: self.conns@,
            settled: settled_models(self.settled@),
            closing: self.closing@,
        }
    }

    /// Drops a device's connection, whichever it is: its commands fail, and it is to be closed.
    pub fn drop_device(&mut self, device_id: &str)
        ensures
            final(self).shown() == with_dropped(old(self).shown(), device_id@),
            final(self).seq == old(self).seq,
            final(self).conn_gen == old(self).conn_gen,
    {
        if let Some(c) = self.conns.remove(device_id) {
            self.fail_all(c.gen, c.acks, "device disconnected");
            self.closing.push(c.gen);
        }
        proof {
            assert(!old(self).conns@.dom().contains(device_id@) ==> self.conns@
                =~= old(self).conns@);
        }
    }

    /// The connection on which a frame for a device goes out; none drops the frame.
    pub fn send_frame(&self, device_id: &str) -> (r: Option<u64>)
        ensures
            match r {
                Some(g) => self.is_current(device_id@, g),
                None => !self.conns@.dom().contains(device_id@),
            },
    {
        match self.conns.get(device_id) {
            Some(c) => Some(c.gen),
            None => None,
        }
    }

    /// Whether a device's connection awaits the acknowledgement of a command.
    pub open spec fn awaits(self, device_id: Seq<char>, cmd_id: Seq<char>) -> bool {
        self.conns@.dom().contains(device_id) && views(self.conns@[device_id].acks@).contains(cmd_id)
    }

    /// Whether the hub has become `next` by taking one command off a device's list.
    pub open spec fn took_off(self, device_id: Seq<char>, cmd_id: Seq<char>, next: Hub) -> bool {
        &&& next.conns@.dom() == self.conns@.dom()
        &&& next.conns@[device_id].gen == self.conns@[device_id].gen
        &&& views(next.conns@[device_id].acks@) == without_first(
            views(self.conns@[device_id].acks@),
            cmd_id,
        )
        &&& forall|d: Seq<char>|
            d != device_id && self.conns@.dom().contains(d) ==> #[trigger] next.conns@[d]
                == self.conns@[d]
    }

    fn take_ack(&mut self, device_id: &str, cmd_id: &str) -> (r: Option<u64>)
        ensures
            match r {
                Some(g) => {
                    &&& old(self).awaits(device_id@, cmd_id@)
                    &&& g == old(self).conns@[device_id@].gen
                    &&& old(self).took_off(device_id@, cmd_id@, *final(self))
                    &&& *final(self) == (Hub { conns: final(self).conns, ..*old(self) })
                },
                None => !old(self).awaits(device_id@, cmd_id@) && *final(self) == *old(self),
            },
    {
        let found = match self.conns.get(device_id) {
            Some(c) => match position(&c.acks, cmd_id) {
                Some(i) => Some((i, c.gen)),
                None => None,
            },
            None => None,
        };
        match found {
            Some((i, g)) => {
                let ghost m = self.conns@;
                if let Some(c) = self.conns.remove(device_id) {
                    let mut c = c;
                    let ghost acks = views(c.acks@);
                    let _ = c.acks.remove(i);
                    proof {
                        assert(views(c.acks@) =~= acks.remove(i as int));
                        lemma_without_first(acks, cmd_id@, i as int);
                    }
                    self.conns.insert(device_id.to_owned(), c);
                    proof {
                        assert(self.conns@.dom() =~= m.dom());
                    }
                }
                Some(g)
            },
            None => None,
        }
    }

    /// Whether the hub has become `next` by settling a command of a device: it leaves the list, and
    /// is settled as told.
    pub open spec fn resolves(
        self,
        device_id: Seq<char>,
        cmd_id: Seq<char>,
        result: Result<(), Seq<char>>,
        next: Hub,
    ) -> bool {
        &&& self.took_off(device_id, cmd_id, next)
        &&& settled_models(next.settled@) == settled_models(self.settled@).push(
            SettledModel { gen: self.conns@[device_id].gen, cmd_id, result },
        )
        &&& next == (Hub { conns: next.conns, settled: next.settled, ..self })
    }

    /// Settles a command with what the phone said of it. Tells whether the device's connection
    /// was waiting for that.
    pub fn resolve_ack(&mut self, device_id: &str, cmd_id: &str, result: Result<(), String>) -> (r:
        bool)
        ensures
            r == old(self).awaits(device_id@, cmd_id@),
            !r ==> *final(self) == *old(self),
            r ==> old(self).resolves(
                device_id@,
                cmd_id@,
                match result {
                    Ok(u) => Ok(u),
                    Err(e) => Err(e@),
                },
                *final(self),
            ),
    {
        match self.take_ack(device_id, cmd_id) {
            Some(gen) => {
                let s = Settled { gen, cmd_id: cmd_id.to_owned(), result };
                proof {
                    assert(settled_models(self.settled@.push(s)) =~= settled_models(
                        self.settled@,
                    ).push(s@));
                }
                self.settled.push(s);
                true
            },
            None => false,
        }
    }

    fn next_cmd_id(&mut self) -> (r: String)
        ensures
            r@ == cmd_name(old(self).seq),
            *final(self) == (Hub { seq: next_number(old(self).seq), ..*old(self) }),
    {
        let n: u64 = self.seq;
        self.seq = if n == u64::MAX {
            0
        } else {
            n + 1
        };
        let mut s = "c-".to_owned();
        s.append(&text::decimal_of(n));
        s
    }

    /// Whether the hub has become `next` by preparing a command for a device: it has the next name,
    /// goes out on the device's connection, and is the last that this one awaits.
    pub open spec fn commands(
        self,
        device_id: Seq<char>,
        action: Action,
        d: Dispatch,
        next: Hub,
    ) -> bool {
        &&& self.is_current(device_id, d.gen)
        &&& d.cmd_id@ == cmd_name(self.seq)
        &&& d.frame matches ServerToPhone::Cmd { cmd_id, action: a }
        &&& cmd_id@ == d.cmd_id@
        &&& a == action
        &&& next.conns@.dom() == self.conns@.dom()
        &&& next.conns@[device_id].gen == d.gen
        &&& views(next.conns@[device_id].acks@) == views(self.conns@[device_id].acks@).push(
            d.cmd_id@,
        )
        &&& forall|x: Seq<char>|
            x != device_id && self.conns@.dom().contains(x) ==> #[trigger] next.conns@[x]
                == self.conns@[x]
        &&& next == (Hub { conns: next.conns, seq: next_number(self.seq), ..self })
    }

    /// Prepares a command whose acknowledgement is awaited.
    pub fn command(&mut self, device_id: &str, action: Action) -> (r: Result<Dispatch, String>)
        ensures
            match r {
                Ok(d) => old(self).commands(device_id@, action, d, *final(self)),
                Err(e) => {
                    &&& !old(self).conns@.dom().contains(device_id@)
                    &&& e@ == "device `"@ + device_id@ + "` not connected"@
                    &&& final(self).conns@ == old(self).conns@
                    &&& *final(self) == (Hub { conns: final(self).conns, ..*old(self) })
                },
            },
    {
        let ghost m = self.conns@;
        match self.conns.remove(device_id) {
            Some(c) => {
                let mut c = c;
                let cmd_id = self.next_cmd_id();
                let gen: u64 = c.gen;
                let id = cmd_id.clone();
                proof {
                    text::lemma_views_push(c.acks@, id);
                }
                c.acks.push(id);
                self.conns.insert(device_id.to_owned(), c);
                proof {
                    assert(self.conns@.dom() =~= m.dom());
                }
                let frame = ServerToPhone::Cmd { cmd_id: cmd_id.clone(), action };
                Ok(Dispatch { gen, cmd_id, frame })
            },
            None => Err(not_connected(device_id)),
        }
    }

    /// Forgets a command that could not be sent or that was not acknowledged in time.
    pub fn forget(&mut self, device_id: &str, gen: u64, cmd_id: &str)
        ensures
            if old(self).is_current(device_id@, gen) && old(self).awaits(device_id@, cmd_id@) {
                &&& old(self).took_off(device_id@, cmd_id@, *final(self))
                &&& *final(self) == (Hub { conns: final(self).conns, ..*old(self) })
            } else {
                *final(self) == *old(self)
            },
    {
        let current = match self.conns.get(device_id) {
            Some(c) => c.gen == gen,
            None => false,
        };
        if current {
            let _ = self.take_ack(device_id, cmd_id);
        }
    }

    /// Prepares a command whose acknowledgement nobody awaits.
    pub fn fire(&mut self, device_id: &str, action: Action) -> (r: Result<Dispatch, String>)
        ensures
            match r {
                Ok(d) => {
                    &&& old(self).is_current(device_id@, d.gen)
                    &&& d.cmd_id@ == cmd_name(old(self).seq)
                    &&& d.frame matches ServerToPhone::Cmd { cmd_id, action: a }
                    &&& cmd_id@ == d.cmd_id@
                    &&& a == action
                    &&& *final(self) == (Hub { seq: next_number(old(self).seq), ..*old(self) })
                },
                Err(e) => {
                    &&& !old(self).conns@.dom().contains(device_id@)
                    &&& e@ == "device `"@ + device_id@ + "` not connected"@
                    &&& *final(self) == *old(self)
                },
            },
    {
        match self.send_frame(device_id) {
            Some(gen) => {
                let cmd_id = self.next_cmd_id();
                let frame = ServerToPhone::Cmd { cmd_id: cmd_id.clone(), action };
                Ok(Dispatch { gen, cmd_id, frame })
            },
            None => Err(not_connected(device_id)),
        }
    }

    /// Takes the settled commands out, to be told to those who wait for them.
    pub fn take_settled(&mut self) -> (r: Vec<Settled>)
        ensures
            r == old(self).settled,
            final(self).settled@.len() == 0,
            *final(self) == (Hub { settled: final(self).settled, ..*old(self) }),
    {
        let mut out: Vec<Settled> = Vec::new();
        std::mem::swap(&mut out, &mut self.settled);
        out
    }

    /// Takes the connections to be closed out.
    pub fn take_closing(&mut self) -> (r: Vec<u64>)
        ensures
            r == old(self).closing,
            final(self).closing@.len() == 0,
            *final(self) == (Hub { closing: final(self).closing, ..*old(self) }),
    {
        let mut out: Vec<u64> = Vec::new();
        std::mem::swap(&mut out, &mut self.closing);
        out
    }
}

impl Default for Hub {
    fn default() -> (r: Self)
        ensures
            r.conns@ == Map::<Seq<char>, Conn>::empty(),
            r.seq == 1,
            r.conn_gen == 1,
            r.settled@.len() == 0,
            r.closing@.len() == 0,
    {
        Hub::new()
    }
}

fn not_connected(device_id: &str) -> (r: String)
    ensures
        r@ == "device `"@ + device_id@ + "` not connected"@,
{
    let mut s = "device `".to_owned();
    s.append(device_id);
    s.append("` not connected");
    s
}

fn position(list: &Vec<String>, x: &str) -> (r: Option<usize>)
    ensures
        match r {
            Some(i) => {
                &&& i < list@.len()
                &&& views(list@)[i as int] == x@
                &&& views(list@).contains(x@)
                &&& forall|j: int| 0 <= j < i ==> views(list@)[j] != x@
            },
            None => !views(list@).contains(x@),
        },
{
    let mut i: usize = 0;
    while i < list.len()
        invariant
            i <= list.len(),
            forall|j: int| 0 <= j < i ==> views(list@)[j] != x@,
        decreases list.len() - i,
    {
        if text::same(&list[i], x) {
            proof {
                assert(views(list@)[i as int] == x@);
            }
            return Some(i);
        }
        i += 1;
    }
    None
}

proof fn lemma_without_first(s: Seq<Seq<char>>, x: Seq<char>, i: int)
    requires
        0 <= i < s.len(),
        s[i] == x,
        forall|j: int| 0 <= j < i ==> s[j] != x,
    ensures
        without_first(s, x) == s.remove(i),
    decreases i,
{
    if i > 0 {
        assert forall|j: int| 0 <= j < i - 1 implies s.skip(1)[j] != x by {
            assert(s.skip(1)[j] == s[j + 1]);
        }
        lemma_without_first(s.skip(1), x, i - 1);
        assert(seq![s[0]] + s.skip(1).remove(i - 1) =~= s.remove(i));
    } else {
        assert(s.skip(1) =~= s.remove(0));
    }
}

/// How a command came out.
#[derive(Debug)]
pub enum CommandOutcome {
    Acknowledged,
    /// The phone refused it, or its connection ended, for this reason.
    Refused(String),
    /// Nobody is left to acknowledge it.
    Dropped,
    /// It could not be sent.
    SendClosed,
    /// It was not acknowledged in time.
    TimedOut,
}

/// What is said of a command that failed.
pub open spec fn command_error(
    kind: Seq<char>,
    device_id: Seq<char>,
    outcome: CommandOutcome,
) -> Option<Seq<char>> {
    let head = "`"@ + kind + "` to `"@ + device_id;
    match outcome {
        CommandOutcome::Acknowledged => None,
        CommandOutcome::Refused(e) => Some(head + "`: phone reported: "@ + e@),
        CommandOutcome::Dropped => Some(head + "`: ack channel dropped"@),
        CommandOutcome::SendClosed => Some(
            head + "`: send channel closed (phone disconnected)"@,
        ),
        CommandOutcome::TimedOut => Some(
            head + "` timed out (no ack within "@ + decimal(CMD_TIMEOUT_SECS as nat)
                + "s — phone may be asleep or its connection stale)"@,
        ),
    }
}

/// The result of a command.
pub fn command_result(kind: &str, device_id: &str, outcome: CommandOutcome) -> (r: Result<
    (),
    String,
>)
    ensures
        match r {
            Ok(_) => outcome is Acknowledged,
            Err(e) => command_error(kind@, device_id@, outcome) == Some(e@),
        },
{
    let mut s = "`".to_owned();
    s.append(kind);
    s.append("` to `");
    s.append(device_id);
    match outcome {
        CommandOutcome::Acknowledged => {
            return Ok(());
        },
        CommandOutcome::Refused(e) => {
            s.append("`: phone reported: ");
            s.append(&e);
        },
        CommandOutcome::Dropped => {
            s.append("`: ack channel dropped");
        },
        CommandOutcome::SendClosed => {
            s.append("`: send channel closed (phone disconnected)");
        },
        CommandOutcome::TimedOut => {
            s.append("` timed out (no ack within ");
            s.append(&text::decimal_of(CMD_TIMEOUT_SECS));
            s.append("s — phone may be asleep or its connection stale)");
        },
    }
    Err(s)
}

/// A new connection is told apart from every earlier one, and stays so.
pub proof fn law_generations_are_fresh(before: Hub, after: Hub, device_id: Seq<char>, gen: u64)
    requires
        before.gens_below(),
        before.conn_gen < u64::MAX,
        gen == before.conn_gen,
        after.conn_gen == next_number(gen),
        after.conns@.dom() == before.conns@.dom().insert(device_id),
        after.conns@[device_id].gen == gen,
        forall|d: Seq<char>|
            d != device_id && before.conns@.dom().contains(d) ==> #[trigger] after.conns@[d]
                == before.conns@[d],
    ensures
        after.gens_below(),
        forall|d: Seq<char>|
            before.conns@.dom().contains(d) ==> #[trigger] before.conns@[d].gen != gen,
{
}

/// When a phone reconnects and its old connection ends later, the new one stays: the old
/// generation is no longer the device's.
pub proof fn law_an_old_connection_cannot_remove_a_newer_one(
    before: Hub,
    after: Hub,
    device_id: Seq<char>,
    old_gen: u64,
)
    requires
        before.gens_below(),
        before.is_current(device_id, old_gen),
        after.is_current(device_id, before.conn_gen),
    ensures
        !after.is_current(device_id, old_gen),
{
}

/// When a phone connects anew, its connection gets the number that was next, awaits nothing, and
/// takes the place of an earlier one: each command of that one is settled as failed, once, and it
/// is to be closed. Other phones keep their connections.
pub proof fn law_a_new_connection_supersedes(before: Hub, device_id: Seq<char>, after: Hub)
    requires
        before.registers(device_id, after),
    ensures
        after.is_current(device_id, before.conn_gen),
        forall|id: Seq<char>| !#[trigger] after.awaits(device_id, id),
        forall|d: Seq<char>, g: u64|
            d != device_id ==> (#[trigger] after.is_current(d, g) <==> before.is_current(d, g)),
        forall|d: Seq<char>, id: Seq<char>|
            d != device_id ==> (#[trigger] after.awaits(d, id) <==> before.awaits(d, id)),
        match before.conns@.dom().contains(device_id) {
            true => {
                let prev = before.conns@[device_id];
                let n = before.settled@.len();
                &&& after.settled@.len() == n + prev.acks@.len()
                &&& forall|i: int|
                    0 <= i < after.settled@.len() ==> (#[trigger] after.settled@[i])@ == if i < n {
                        before.settled@[i]@
                    } else {
                        SettledModel {
                            gen: prev.gen,
                            cmd_id: prev.acks@[i - n]@,
                            result: Err("connection superseded"@),
                        }
                    }
                &&& after.closing@ == before.closing@.push(prev.gen)
            },
            false => after.settled == before.settled && after.closing == before.closing,
        },
{
    if before.conns@.dom().contains(device_id) {
        let prev = before.conns@[device_id];
        lemma_failed_at(
            before.settled@,
            after.settled@,
            prev.gen,
            prev.acks@,
            "connection superseded"@,
            0,
        );
        assert forall|i: int| 0 <= i < after.settled@.len() implies (#[trigger] after.settled@[i])@
            == if i < before.settled@.len() {
            before.settled@[i]@
        } else {
            SettledModel {
                gen: prev.gen,
                cmd_id: prev.acks@[i - before.settled@.len()]@,
                result: Err("connection superseded"@),
            }
        } by {
            lemma_failed_at(
                before.settled@,
                after.settled@,
                prev.gen,
                prev.acks@,
                "connection superseded"@,
                i,
            );
        }
    }
}

proof fn lemma_failed_at(
    was: Seq<Settled>,
    now: Seq<Settled>,
    gen: u64,
    acks: Seq<String>,
    why: Seq<char>,
    i: int,
)
    requires
        settled_models(now) == settled_models(was) + failed_all(gen, views(acks), why),
    ensures
        now.len() == was.len() + acks.len(),
        0 <= i < was.len() ==> now[i]@ == was[i]@,
        was.len() <= i < now.len() ==> now[i]@ == (SettledModel {
            gen,
            cmd_id: acks[i - was.len()]@,
            result: Err(why),
        }),
{
    let a = settled_models(was);
    let b = settled_models(now);
    let f = failed_all(gen, views(acks), why);
    assert(b.len() == now.len() && a.len() == was.len() && f.len() == acks.len());
    if 0 <= i < was.len() {
        assert(b[i] == a[i]);
        assert(b[i] == now[i]@);
        assert(a[i] == was[i]@);
    }
    if was.len() <= i < now.len() {
        assert(b[i] == f[i - was.len()]);
        assert(b[i] == now[i]@);
        assert(views(acks)[i - was.len()] == acks[i - was.len()]@);
    }
}

/// When a connection ends, the device has none, each command that it awaited is settled as failed,
/// once, and other phones keep their connections.
pub proof fn law_a_lost_connection_fails_its_commands(before: Hub, device_id: Seq<char>, after: Hub)
    requires
        before.conns@.dom().contains(device_id),
        before.unregisters(device_id, after),
    ensures
        !after.conns@.dom().contains(device_id),
        forall|d: Seq<char>, g: u64|
            d != device_id ==> (#[trigger] after.is_current(d, g) <==> before.is_current(d, g)),
        forall|d: Seq<char>, id: Seq<char>|
            d != device_id ==> (#[trigger] after.awaits(d, id) <==> before.awaits(d, id)),
        ({
            let prev = before.conns@[device_id];
            let n = before.settled@.len();
            &&& after.settled@.len() == n + prev.acks@.len()
            &&& forall|i: int|
                    0 <= i < after.settled@.len() ==> (#[trigger] after.settled@[i])@ == if i < n {
                        before.settled@[i]@
                    } else {
                        SettledModel {
                            gen: prev.gen,
                            cmd_id: prev.acks@[i - n]@,
                            result: Err("device disconnected"@),
                        }
                    }
        }),
        after.closing == before.closing,
        after.seq == before.seq,
        after.conn_gen == before.conn_gen,
{
    let prev = before.conns@[device_id];
    lemma_failed_at(
            before.settled@,
            after.settled@,
            prev.gen,
            prev.acks@,
            "device disconnected"@,
            0,
        );
        assert forall|i: int| 0 <= i < after.settled@.len() implies (#[trigger] after.settled@[i])@
            == if i < before.settled@.len() {
            before.settled@[i]@
        } else {
            SettledModel {
                gen: prev.gen,
                cmd_id: prev.acks@[i - before.settled@.len()]@,
                result: Err("device disconnected"@),
            }
        } by {
            lemma_failed_at(
                before.settled@,
                after.settled@,
                prev.gen,
                prev.acks@,
                "device disconnected"@,
                i,
            );
        }
}

/// A dropped device has no connection any more: what it awaited has failed, and its connection is
/// to be closed. The other devices keep theirs, and what was settled stays settled.
pub proof fn law_dropping_a_device_closes_it(c: Connections, device_id: Seq<char>)
    ensures
        !with_dropped(c, device_id).conns.dom().contains(device_id),
        forall|d: Seq<char>|
            d != device_id ==> (#[trigger] with_dropped(c, device_id).conns.dom().contains(d)
                <==> c.conns.dom().contains(d)),
        forall|d: Seq<char>|
            d != device_id && c.conns.dom().contains(d) ==> #[trigger] with_dropped(
                c,
                device_id,
            ).conns[d] == c.conns[d],
        c.settled.is_prefix_of(with_dropped(c, device_id).settled),
        c.closing.is_prefix_of(with_dropped(c, device_id).closing),
        c.conns.dom().contains(device_id) ==> {
            let prev = c.conns[device_id];
            let now = with_dropped(c, device_id);
            &&& now.closing.len() == c.closing.len() + 1
            &&& now.closing.last() == prev.gen
            &&& now.settled.len() == c.settled.len() + prev.acks@.len()
            &&& forall|i: int|
                0 <= i < prev.acks@.len() ==> now.settled[c.settled.len() + i] == (SettledModel {
                    gen: prev.gen,
                    cmd_id: (#[trigger] prev.acks@[i])@,
                    result: Err("device disconnected"@),
                })
        },
        !c.conns.dom().contains(device_id) ==> with_dropped(c, device_id) == c,
{
    let now = with_dropped(c, device_id);
    if c.conns.dom().contains(device_id) {
        let prev = c.conns[device_id];
        let f = failed_all(prev.gen, views(prev.acks@), "device disconnected"@);
        assert(f.len() == prev.acks@.len());
        assert(now.settled == c.settled + f);
        assert(c.settled =~= now.settled.take(c.settled.len() as int));
        assert forall|i: int| 0 <= i < prev.acks@.len() implies now.settled[c.settled.len() + i] == (
        SettledModel {
            gen: prev.gen,
            cmd_id: (#[trigger] prev.acks@[i])@,
            result: Err("device disconnected"@),
        }) by {
            assert(now.settled[c.settled.len() + i] == f[i]);
        }
    }
}

/// Of some devices that are dropped none has a connection any more, and no other loses its own.
pub proof fn law_dropped_devices_are_gone(c: Connections, devices: Seq<Seq<char>>)
    ensures
        forall|d: Seq<char>| #[trigger]
            with_all_dropped(c, devices).conns.dom().contains(d) <==> c.conns.dom().contains(d)
                && !devices.contains(d),
        forall|d: Seq<char>|
            c.conns.dom().contains(d) && !devices.contains(d) ==> #[trigger] with_all_dropped(
                c,
                devices,
            ).conns[d] == c.conns[d],
    decreases devices.len(),
{
    if devices.len() > 0 {
        let init = devices.drop_last();
        law_dropped_devices_are_gone(c, init);
        law_dropping_a_device_closes_it(with_all_dropped(c, init), devices.last());
        assert forall|d: Seq<char>| devices.contains(d) <==> (init.contains(d) || d
            == devices.last()) by {
            if init.contains(d) {
                let j = choose|j: int| 0 <= j < init.len() && init[j] == d;
                assert(devices[j] == d);
            }
            if devices.contains(d) {
                let j = choose|j: int| 0 <= j < devices.len() && devices[j] == d;
                if j < init.len() {
                    assert(init[j] == d);
                }
            }
            assert(devices[devices.len() - 1] == devices.last());
        }
    }
}

/// A command that is taken off a list leaves the others on it, in their order: it is the first of
/// its name that goes.
pub proof fn law_one_command_is_taken_off(s: Seq<Seq<char>>, x: Seq<char>, i: int)
    requires
        0 <= i < s.len(),
        s[i] == x,
        forall|j: int| 0 <= j < i ==> s[j] != x,
    ensures
        without_first(s, x).len() == s.len() - 1,
        forall|j: int| 0 <= j < i ==> without_first(s, x)[j] == s[j],
        forall|j: int| i <= j < s.len() - 1 ==> without_first(s, x)[j] == s[j + 1],
{
    lemma_without_first(s, x, i);
}

/// Commands with different numbers have different names, and a name tells its number.
pub proof fn law_command_names_differ(m: u64, n: u64)
    ensures
        cmd_name(m) == cmd_name(n) ==> m == n,
        cmd_name(n).take(2) == "c-"@,
        text::digits_value(cmd_name(n).skip(2)) == n,
{
    reveal_strlit("c-");
    text::lemma_decimal_value(m as nat);
    text::lemma_decimal_value(n as nat);
    assert(cmd_name(m).skip(2) =~= decimal(m as nat));
    assert(cmd_name(n).skip(2) =~= decimal(n as nat));
    assert(cmd_name(n).take(2) =~= "c-"@);
}

/// The numbers of commands and connections count up by one, and start again at zero behind the
/// largest.
pub proof fn law_numbers_count_up(n: u64)
    ensures
        n < u64::MAX ==> next_number(n) == n + 1,
        n == u64::MAX ==> next_number(n) == 0,
        next_number(n) != n,
{
}

/// A command fails unless it was acknowledged; what is said of it names the command and the device,
/// and a refusal is told in the phone's own words.
pub proof fn law_a_failed_command_is_explained(
    kind: Seq<char>,
    device_id: Seq<char>,
    outcome: CommandOutcome,
)
    ensures
        command_error(kind, device_id, outcome) is None <==> outcome is Acknowledged,
        outcome matches CommandOutcome::Refused(e) ==> command_error(kind, device_id, outcome)
            == Some("`"@ + kind + "` to `"@ + device_id + "`: phone reported: "@ + e@),
        outcome is Dropped ==> command_error(kind, device_id, outcome) == Some(
            "`"@ + kind + "` to `"@ + device_id + "`: ack channel dropped"@,
        ),
        outcome is SendClosed ==> command_error(kind, device_id, outcome) == Some(
            "`"@ + kind + "` to `"@ + device_id + "`: send channel closed (phone disconnected)"@,
        ),
        outcome is TimedOut ==> command_error(kind, device_id, outcome) == Some(
            "`"@ + kind + "` to `"@ + device_id + "` timed out (no ack within "@ + decimal(10)
                + "s — phone may be asleep or its connection stale)"@,
        ),
{
}

/// A command goes out once, to the connection of its device, with the action that was asked for,
/// and is awaited from then on. The answer to it settles it with what was answered, on that
/// connection; after that it is awaited no more, and every other command is as before.
pub proof fn law_an_answer_settles_its_command(
    before: Hub,
    device_id: Seq<char>,
    action: Action,
    d: Dispatch,
    between: Hub,
    result: Result<(), Seq<char>>,
    after: Hub,
    other: Seq<char>,
)
    requires
        before.commands(device_id, action, d, between),
        !before.awaits(device_id, d.cmd_id@),
        between.resolves(device_id, d.cmd_id@, result, after),
    ensures
        before.is_current(device_id, d.gen),
        d.frame matches ServerToPhone::Cmd { cmd_id, action: a } && cmd_id@ == d.cmd_id@ && a
            == action,
        between.awaits(device_id, d.cmd_id@),
        !after.awaits(device_id, d.cmd_id@),
        other != d.cmd_id@ ==> (after.awaits(device_id, other) <==> before.awaits(device_id, other)),
        after.settled@.len() == before.settled@.len() + 1,
        after.settled@.last().gen == d.gen,
        after.settled@.last().cmd_id@ == d.cmd_id@,
        after.settled@.last().result is Ok <==> result is Ok,
        result matches Err(e) ==> after.settled@.last().result is Err
            && after.settled@.last().result->Err_0@ == e,
        after.is_current(device_id, d.gen),
        after.closing == before.closing,
{
    let id = d.cmd_id@;
    let was = views(before.conns@[device_id].acks@);
    let mid = views(between.conns@[device_id].acks@);
    let now = views(after.conns@[device_id].acks@);
    assert(mid == was.push(id));
    assert(mid[was.len() as int] == id);
    assert forall|j: int| 0 <= j < was.len() implies mid[j] != id by {
        assert(mid[j] == was[j]);
        assert(was.contains(was[j]));
    }
    lemma_without_first(mid, id, was.len() as int);
    assert(now =~= was);
    let models = settled_models(after.settled@);
    assert(models.len() == after.settled@.len());
    assert(settled_models(before.settled@).len() == before.settled@.len());
    assert(models.last() == after.settled@.last()@);
}

} // verus!
