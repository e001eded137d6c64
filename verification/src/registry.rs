//! The registry of connected devices and their call state.

use vstd::prelude::*;

use crate::protocol::{CallState, Direction};
use crate::table::{stands_before, Table};
#[allow(unused_imports)]
use crate::table::{before, in_order, lemma_before_irreflexive, lemma_before_transitive};
use crate::text;
#[allow(unused_imports)]
use crate::text::{opt_view, views};

verus! {

/// A device's current call.
#[derive(Debug)]
pub struct CallInfo {
    pub call_id: String,
    pub number: Option<String>,
    pub state: CallState,
    pub direction: Direction,
}

impl Clone for CallInfo {
    fn clone(&self) -> (r: Self)
        ensures
            r == *self,
    {
        CallInfo {
            call_id: self.call_id.clone(),
            number: text::copy_opt(&self.number),
            state: self.state,
            direction: self.direction,
        }
    }
}

/// A text message seen by a device.
#[derive(Debug)]
pub struct SmsRecord {
    pub direction: Direction,
    pub from: Option<String>,
    pub to: Option<String>,
    pub body: String,
    pub ts: i64,
}

impl Clone for SmsRecord {
    fn clone(&self) -> (r: Self)
        ensures
            r == *self,
    {
        SmsRecord {
            direction: self.direction,
            from: text::copy_opt(&self.from),
            to: text::copy_opt(&self.to),
            body: self.body.clone(),
            ts: self.ts,
        }
    }
}

/// A call-log entry reported by a device.
#[derive(Debug)]
pub struct CallRecord {
    /// The other party's number, if known.
    pub number: Option<String>,
    /// incoming, outgoing, missed, rejected, voicemail, blocked or unknown.
    pub kind: String,
    /// Epoch milliseconds.
    pub ts: i64,
    /// Call duration in seconds.
    pub duration: i64,
}

impl Clone for CallRecord {
    fn clone(&self) -> (r: Self)
        ensures
            r == *self,
    {
        CallRecord {
            number: text::copy_opt(&self.number),
            kind: self.kind.clone(),
            ts: self.ts,
            duration: self.duration,
        }
    }
}

/// An active SIM of a device.
#[derive(Debug)]
pub struct SimInfo {
    /// Physical SIM slot index, from 0.
    pub slot: i32,
    /// Subscription id.
    pub sub_id: i32,
    /// User-facing SIM name, if set.
    pub name: Option<String>,
    /// Carrier name, if known.
    pub carrier: Option<String>,
    /// The SIM's own number.
    pub number: Option<String>,
    /// Whether this is the system default SIM for outgoing calls.
    pub is_default: bool,
}

impl Clone for SimInfo {
    fn clone(&self) -> (r: Self)
        ensures
            r == *self,
    {
        SimInfo {
            slot: self.slot,
            sub_id: self.sub_id,
            name: text::copy_opt(&self.name),
            carrier: text::copy_opt(&self.carrier),
            number: text::copy_opt(&self.number),
            is_default: self.is_default,
        }
    }
}

/// The network's reply to a raw code.
#[derive(Debug)]
pub struct MmiResult {
    /// The code that was sent.
    pub code: String,
    /// Whether the network accepted the request.
    pub success: bool,
    /// The network's human-readable response, if any.
    pub response: Option<String>,
}

impl Clone for MmiResult {
    fn clone(&self) -> (r: Self)
        ensures
            r == *self,
    {
        MmiResult {
            code: self.code.clone(),
            success: self.success,
            response: text::copy_opt(&self.response),
        }
    }
}

/// How a voicemail request came out.
#[derive(Debug)]
pub struct VoicemailResult {
    /// The requested state.
    pub enabled: bool,
    /// Whether the device applied it.
    pub success: bool,
    /// A human-readable detail, if any.
    pub response: Option<String>,
}

impl Clone for VoicemailResult {
    fn clone(&self) -> (r: Self)
        ensures
            r == *self,
    {
        VoicemailResult {
            enabled: self.enabled,
            success: self.success,
            response: text::copy_opt(&self.response),
        }
    }
}

/// A registered device.
#[derive(Debug)]
pub struct DeviceInfo {
    pub id: String,
    pub name: String,
    /// The phone's address on the local network, once it has connected.
    pub addr: Option<String>,
    pub last_seen_ms: i64,
    pub current_call: Option<CallInfo>,
}

impl Clone for DeviceInfo {
    fn clone(&self) -> (r: Self)
        ensures
            r == *self,
    {
        DeviceInfo {
            id: self.id.clone(),
            name: self.name.clone(),
            addr: text::copy_opt(&self.addr),
            last_seen_ms: self.last_seen_ms,
            current_call: match &self.current_call {
                Some(c) => Some(c.clone()),
                None => None,
            },
        }
    }
}

/// Registry of devices keyed by id.
pub struct Registry {
    devices: Table<DeviceInfo>,
}

impl View for Registry {
    type V = Map<Seq<char>, DeviceInfo>;

    closed spec fn view(&self) -> Map<Seq<char>, DeviceInfo> {
        self.devices@
    }
}

/// Whether a device was last seen before a cutoff.
pub open spec fn is_stale(d: DeviceInfo, cutoff_ms: i64) -> bool {
    d.last_seen_ms < cutoff_ms
}

/// A registry without its stale devices.
pub open spec fn without_stale(
    m: Map<Seq<char>, DeviceInfo>,
    cutoff_ms: i64,
) -> Map<Seq<char>, DeviceInfo> {
    Map::new(|k: Seq<char>| m.dom().contains(k) && !is_stale(m[k], cutoff_ms), |k: Seq<char>| m[k])
}

/// Whether devices stand in the order of their ids.
pub open spec fn by_id(v: Seq<DeviceInfo>) -> bool {
    forall|i: int, j: int|
        0 <= i < j < v.len() ==> !before(#[trigger] v[j].id@, #[trigger] v[i].id@)
}

/// Whether a list holds each device of a registry once: `keys` are those that they stand under.
pub open spec fn lists(
    m: Map<Seq<char>, DeviceInfo>,
    keys: Seq<Seq<char>>,
    v: Seq<DeviceInfo>,
) -> bool {
    &&& keys.no_duplicates()
    &&& keys.len() == v.len()
    &&& forall|k: Seq<char>| keys.contains(k) <==> m.dom().contains(k)
    &&& forall|i: int| 0 <= i < v.len() ==> v[i] == m[#[trigger] keys[i]]
}

/// Where a device belongs in a list that is in order: before the first one with a later id.
fn place_for(v: &Vec<DeviceInfo>, d: &DeviceInfo) -> (r: usize)
    ensures
        r <= v@.len(),
        forall|j: int| 0 <= j < r ==> !before(d.id@, #[trigger] v@[j].id@),
        r < v@.len() ==> before(d.id@, v@[r as int].id@),
{
    let mut i: usize = 0;
    while i < v.len() && !stands_before(&d.id, &v[i].id)
        invariant
            i <= v.len(),
            forall|j: int| 0 <= j < i ==> !before(d.id@, #[trigger] v@[j].id@),
        decreases v.len() - i,
    {
        i += 1;
    }
    i
}

proof fn lemma_placed(v: Seq<DeviceInfo>, d: DeviceInfo, at: int)
    requires
        by_id(v),
        0 <= at <= v.len(),
        forall|j: int| 0 <= j < at ==> !before(d.id@, #[trigger] v[j].id@),
        at < v.len() ==> before(d.id@, v[at].id@),
    ensures
        by_id(v.insert(at, d)),
{
    let w = v.insert(at, d);
    assert forall|i: int, j: int| 0 <= i < j < w.len() implies !before(
        #[trigger] w[j].id@,
        #[trigger] w[i].id@,
    ) by {
        if j < at {
            assert(w[i] == v[i] && w[j] == v[j]);
        } else if j == at {
            assert(w[i] == v[i]);
        } else if i < at {
            assert(w[i] == v[i] && w[j] == v[j - 1]);
        } else if i == at {
            assert(w[j] == v[j - 1]);
            if before(v[j - 1].id@, d.id@) {
                lemma_before_transitive(v[j - 1].id@, d.id@, v[at].id@);
                if j - 1 > at {
                    assert(!before(v[j - 1].id@, v[at].id@));
                } else {
                    lemma_before_irreflexive(v[at].id@);
                }
            }
        } else {
            assert(w[i] == v[i - 1] && w[j] == v[j - 1]);
        }
    }
}

proof fn lemma_keys_placed(all: Seq<Seq<char>>, i: int, keys: Seq<Seq<char>>, at: int)
    requires
        in_order(all),
        0 <= i < all.len(),
        keys.no_duplicates(),
        0 <= at <= keys.len(),
        forall|k: Seq<char>| #[trigger] keys.contains(k) <==> all.take(i).contains(k),
    ensures
        keys.insert(at, all[i]).no_duplicates(),
        forall|k: Seq<char>| #[trigger]
            keys.insert(at, all[i]).contains(k) <==> all.take(i + 1).contains(k),
{
    let k0 = all[i];
    let next = keys.insert(at, k0);
    assert(!keys.contains(k0)) by {
        if all.take(i).contains(k0) {
            let had = all.take(i);
            let j = choose|j: int| 0 <= j < had.len() && had[j] == k0;
            assert(before(all[j], all[i]));
            lemma_before_irreflexive(k0);
        }
    }
    assert forall|a: int, b: int| 0 <= a < b < next.len() implies next[a] != next[b] by {
        let x = if a < at { a } else { a - 1 };
        let y = if b < at { b } else { b - 1 };
        if a != at && b != at {
            assert(next[a] == keys[x] && next[b] == keys[y]);
        } else if a == at {
            assert(keys.contains(keys[y]));
        } else {
            assert(keys.contains(keys[x]));
        }
    }
    assert forall|k: Seq<char>| #[trigger] next.contains(k) <==> all.take(i + 1).contains(k) by {
        if next.contains(k) {
            let j = choose|j: int| 0 <= j < next.len() && next[j] == k;
            if j == at {
                assert(all.take(i + 1)[i] == k);
            } else {
                assert(keys.contains(k)) by {
                    assert(keys[if j < at { j } else { j - 1 }] == k);
                }
                let had = all.take(i);
                let m = choose|m: int| 0 <= m < had.len() && had[m] == k;
                assert(all.take(i + 1)[m] == k);
            }
        }
        if all.take(i + 1).contains(k) {
            let now = all.take(i + 1);
            let j = choose|j: int| 0 <= j < now.len() && now[j] == k;
            if j == i {
                assert(next[at] == k);
            } else {
                assert(all.take(i)[j] == k);
                assert(keys.contains(k));
                let m = choose|m: int| 0 <= m < keys.len() && keys[m] == k;
                assert(next[if m < at { m } else { m + 1 }] == k);
            }
        }
    }
}

impl Registry {
    /// Empty registry.
    pub fn new() -> (r: Self)
        ensures
            r@ == Map::<Seq<char>, DeviceInfo>::empty(),
    {
        Registry { devices: Table::new() }
    }

    /// Adds or replaces a device.
    pub fn upsert(&mut self, dev: DeviceInfo)
        ensures
            final(self)@ == old(self)@.insert(dev.id@, dev),
    {
        self.devices.insert(dev.id.clone(), dev);
    }

    /// Removes a device by id.
    pub fn remove(&mut self, id: &str) -> (r: Option<DeviceInfo>)
        ensures
            final(self)@ == old(self)@.remove(id@),
            match r {
                Some(d) => old(self)@.dom().contains(id@) && d == old(self)@[id@],
                None => !old(self)@.dom().contains(id@),
            },
    {
        self.devices.remove(id)
    }

    /// Looks a device up by id.
    pub fn get(&self, id: &str) -> (r: Option<&DeviceInfo>)
        ensures
            match r {
                Some(d) => self@.dom().contains(id@) && *d == self@[id@],
                None => !self@.dom().contains(id@),
            },
    {
        self.devices.get(id)
    }

    /// A device by id, to be changed in place.
    pub fn get_mut(&mut self, id: &str) -> (r: Option<&mut DeviceInfo>)
        ensures
            match r {
                Some(d) => {
                    &&& old(self)@.dom().contains(id@)
                    &&& *d == old(self)@[id@]
                    &&& final(self)@ == old(self)@.insert(id@, *final(d))
                },
                None => !old(self)@.dom().contains(id@) && final(self)@ == old(self)@,
            },
    {
        self.devices.get_mut(id)
    }

    /// The ids of all devices, in order.
    fn ids(&self) -> (r: Vec<String>)
        ensures
            in_order(views(r@)),
            forall|k: Seq<char>| views(r@).contains(k) <==> self@.dom().contains(k),
    {
        self.devices.sorted_keys()
    }

    /// All devices, in the order of their ids. Where a device was given another id in place, it
    /// goes by that one.
    pub fn list(&self) -> (r: Vec<DeviceInfo>)
        ensures
            by_id(r@),
            exists|keys: Seq<Seq<char>>| #[trigger] lists(self@, keys, r@),
    {
        let ids = self.ids();
        let ghost all = views(ids@);
        let mut out: Vec<DeviceInfo> = Vec::new();
        let ghost mut keys: Seq<Seq<char>> = Seq::empty();
        let mut i: usize = 0;
        while i < ids.len()
            invariant
                i <= ids.len(),
                all == views(ids@),
                in_order(all),
                forall|k: Seq<char>| all.contains(k) <==> self@.dom().contains(k),
                by_id(out@),
                keys.no_duplicates(),
                keys.len() == out@.len(),
                forall|k: Seq<char>| #[trigger]
                    keys.contains(k) <==> all.take(i as int).contains(k),
                forall|j: int| 0 <= j < keys.len() ==> out@[j] == self@[#[trigger] keys[j]],
            decreases ids.len() - i,
        {
            let ghost k = all[i as int];
            proof {
                assert(k == ids@[i as int]@);
                assert(all.contains(k));
            }
            match self.devices.get(&ids[i]) {
                Some(d) => {
                    let dev = d.clone();
                    let at: usize = place_for(&out, &dev);
                    proof {
                        lemma_placed(out@, dev, at as int);
                        lemma_keys_placed(all, i as int, keys, at as int);
                        let next = keys.insert(at as int, k);
                        let grown = out@.insert(at as int, dev);
                        assert forall|j: int| 0 <= j < next.len() implies grown[j]
                            == self@[#[trigger] next[j]] by {
                            if j < at {
                                assert(next[j] == keys[j] && grown[j] == out@[j]);
                            } else if j > at {
                                assert(next[j] == keys[j - 1] && grown[j] == out@[j - 1]);
                            }
                        }
                        keys = next;
                    }
                    out.insert(at, dev);
                },
                None => {
                    assert(false);
                },
            }
            i += 1;
        }
        proof {
            assert(all.take(i as int) =~= all);
            assert(lists(self@, keys, out@));
        }
        out
    }

    /// Removes every device last seen strictly before `cutoff_ms`; gives the ids of those that
    /// were removed, in order.
    pub fn reap_older_than(&mut self, cutoff_ms: i64) -> (r: Vec<String>)
        ensures
            final(self)@ == without_stale(old(self)@, cutoff_ms),
            in_order(views(r@)),
            forall|k: Seq<char>|
                views(r@).contains(k) <==> (old(self)@.dom().contains(k) && is_stale(
                    old(self)@[k],
                    cutoff_ms,
                )),
    {
        let ghost m0 = self@;
        let ids = self.ids();
        let mut out: Vec<String> = Vec::new();
        let mut i: usize = 0;
        while i < ids.len()
            invariant
                i <= ids.len(),
                in_order(views(ids@)),
                forall|k: Seq<char>| views(ids@).contains(k) <==> m0.dom().contains(k),
                forall|k: Seq<char>| #[trigger]
                    self@.dom().contains(k) <==> (m0.dom().contains(k) && !(views(ids@).take(
                        i as int,
                    ).contains(k) && is_stale(m0[k], cutoff_ms))),
                forall|k: Seq<char>| #[trigger] self@.dom().contains(k) ==> self@[k] == m0[k],
                in_order(views(out@)),
                forall|k: Seq<char>| #[trigger]
                    views(out@).contains(k) <==> (views(ids@).take(i as int).contains(k)
                        && is_stale(m0[k], cutoff_ms)),
            decreases ids.len() - i,
        {
            let ghost all = views(ids@);
            let ghost head = all.take(i as int);
            let ghost m1 = self@;
            let ghost had = views(out@);
            let ghost kk = all[i as int];
            proof {
                assert(all.take(i + 1) =~= head.push(kk));
                assert(all.contains(kk));
                assert(!head.contains(kk)) by {
                    if head.contains(kk) {
                        let j = choose|j: int| 0 <= j < head.len() && head[j] == kk;
                        assert(crate::table::before(all[j], all[i as int]));
                        crate::table::lemma_before_irreflexive(kk);
                    }
                }
                assert forall|k: Seq<char>| all.take(i + 1).contains(k) <==> (head.contains(k) || k
                    == kk) by {
                    if head.contains(k) {
                        let j = choose|j: int| 0 <= j < head.len() && head[j] == k;
                        assert(all.take(i + 1)[j] == k);
                    }
                    assert(all.take(i + 1)[i as int] == kk);
                }
                assert(m1.dom().contains(kk));
            }
            let stale = match self.devices.get(&ids[i]) {
                Some(d) => d.last_seen_ms < cutoff_ms,
                None => false,
            };
            if stale {
                let _ = self.devices.remove(&ids[i]);
                let id = ids[i].clone();
                proof {
                    assert(id@ == kk);
                    text::lemma_views_push(out@, id);
                    assert forall|a: int, b: int| 0 <= a < b < had.push(kk).len() implies crate::table::before(
                        #[trigger] had.push(kk)[a],
                        #[trigger] had.push(kk)[b],
                    ) by {
                        if b == had.len() {
                            assert(had.contains(had[a]));
                            assert(head.contains(had[a]));
                            let j = choose|j: int| 0 <= j < head.len() && head[j] == had[a];
                            assert(crate::table::before(all[j], all[i as int]));
                        } else {
                            assert(had.push(kk)[a] == had[a] && had.push(kk)[b] == had[b]);
                        }
                    }
                    assert forall|k: Seq<char>| had.push(kk).contains(k) <==> (had.contains(k) || k
                        == kk) by {
                        if had.contains(k) {
                            let j = choose|j: int| 0 <= j < had.len() && had[j] == k;
                            assert(had.push(kk)[j] == k);
                        }
                        assert(had.push(kk)[had.len() as int] == kk);
                    }
                }
                out.push(id);
                assert(views(out@) == had.push(kk));
            }
            proof {
                assert(stale == is_stale(m0[kk], cutoff_ms));
                assert forall|k: Seq<char>| #[trigger] views(out@).contains(k) <==> (all.take(
                    i + 1,
                ).contains(k) && is_stale(m0[k], cutoff_ms)) by {
                    assert(had.contains(k) <==> (head.contains(k) && is_stale(m0[k], cutoff_ms)));
                }
            }
            i += 1;
        }
        proof {
            assert(views(ids@).take(i as int) =~= views(ids@));
            assert(self@ =~= without_stale(m0, cutoff_ms));
        }
        out
    }

    /// The sole device's id, if exactly one is registered (for calls that name none).
    pub fn sole_device_id(&self) -> (r: Option<String>)
        ensures
            match r {
                Some(id) => self@.dom() == set![id@],
                None => forall|k: Seq<char>| self@.dom() != #[trigger] set![k],
            },
    {
        let ids = self.ids();
        let ghost all = views(ids@);
        if ids.len() == 1 {
            let id = ids[0].clone();
            proof {
                assert(all[0] == id@);
                assert(all.contains(id@));
                assert(self@.dom() =~= set![id@]);
            }
            Some(id)
        } else {
            proof {
                assert forall|k: Seq<char>| self@.dom() != #[trigger] set![k] by {
                    if self@.dom() == set![k] {
                        assert(set![k].contains(k));
                        assert(all.contains(k));
                        if all.len() > 1 {
                            assert(all.contains(all[0]) && all.contains(all[1]));
                            assert(set![k].contains(all[0]) && set![k].contains(all[1]));
                            assert(crate::table::before(all[0], all[1]));
                            crate::table::lemma_before_irreflexive(k);
                        }
                    }
                }
            }
            None
        }
    }
}

/// Reaping twice at one cutoff takes nothing more.
pub proof fn law_reaping_is_idempotent(m: Map<Seq<char>, DeviceInfo>, cutoff_ms: i64)
    ensures
        without_stale(without_stale(m, cutoff_ms), cutoff_ms) == without_stale(m, cutoff_ms),
{
    assert(without_stale(without_stale(m, cutoff_ms), cutoff_ms) =~= without_stale(m, cutoff_ms));
}

/// A device seen at the cutoff or later stays.
pub proof fn law_reaping_keeps_the_fresh(
    m: Map<Seq<char>, DeviceInfo>,
    cutoff_ms: i64,
    id: Seq<char>,
)
    requires
        m.dom().contains(id),
        m[id].last_seen_ms >= cutoff_ms,
    ensures
        without_stale(m, cutoff_ms).dom().contains(id),
        without_stale(m, cutoff_ms)[id] == m[id],
{
}

/// A device that was last seen before the cutoff goes, and none comes in.
pub proof fn law_reaping_takes_the_stale(
    m: Map<Seq<char>, DeviceInfo>,
    cutoff_ms: i64,
    id: Seq<char>,
)
    ensures
        without_stale(m, cutoff_ms).dom().contains(id) <==> m.dom().contains(id)
            && m[id].last_seen_ms >= cutoff_ms,
        is_stale(m[id], cutoff_ms) <==> m[id].last_seen_ms < cutoff_ms,
{
}

/// A list of a registry's devices holds every one of them, each as it is registered, and as many as
/// there are.
pub proof fn law_a_list_holds_every_device(
    m: Map<Seq<char>, DeviceInfo>,
    keys: Seq<Seq<char>>,
    v: Seq<DeviceInfo>,
    id: Seq<char>,
)
    requires
        lists(m, keys, v),
    ensures
        v.len() == m.dom().len(),
        m.dom().contains(id) ==> v.contains(m[id]),
        forall|i: int|
            0 <= i < v.len() ==> exists|k: Seq<char>| #[trigger]
                m.dom().contains(k) && m[k] == #[trigger] v[i],
{
    assert(keys.to_set() =~= m.dom());
    keys.unique_seq_to_set();
    if m.dom().contains(id) {
        assert(keys.contains(id));
        let i = choose|i: int| 0 <= i < keys.len() && keys[i] == id;
        assert(v[i] == m[keys[i]]);
    }
    assert forall|i: int| 0 <= i < v.len() implies exists|k: Seq<char>| #[trigger]
        m.dom().contains(k) && m[k] == #[trigger] v[i] by {
        assert(keys.contains(keys[i]));
        assert(m.dom().contains(keys[i]) && m[keys[i]] == v[i]);
    }
}

} // verus!
