//! Per-process network traffic from `ss -tinpeoH state established` output:
//! each connection line names its owning process, the indented line after
//! it holds the connection's byte counters, and connections are grouped by
//! process id and command.
use vstd::prelude::*;
use crate::label_map::{labels_distinct, lemma_map_of, map_of, LabelMap};
use crate::net::count;
use crate::patterns::{captures, compile, group, group_at, regex_captures, regex_compiles, Pattern};
use crate::text::{
    i32_text, parse_i32, parse_i32_spec, parse_u64, signed_decimal, to_chars, to_string, trim,
    trim_span,
};

verus! {

/// The owner of a connection: process name and pid.
pub const SS_OWNER: &'static str = "users:\\(\\(\\\"([^\\\"]+)\\\",pid=(\\d+),fd=\\d+\\)\\)";

/// The byte counters of a connection.
pub const SS_BYTES: &'static str = "bytes_sent:(\\d+).*bytes_received:(\\d+)";

pub open spec fn is_blank(line: Seq<char>) -> bool {
    trim(line).len() == 0
}

/// A detail line, indented under the connection it belongs to.
pub open spec fn is_detail(line: Seq<char>) -> bool {
    line.len() > 0 && (line[0] == ' ' || line[0] == '\t')
}

/// The process name and pid (0 where it does not parse as an `i32`) that a
/// connection line names.
pub open spec fn owner_of(line: Seq<char>) -> Option<(Seq<char>, i32)> {
    match regex_captures(SS_OWNER@, line) {
        Some(g) => match (group(g, 1), group(g, 2)) {
            (Some(name), Some(pid)) => Some(
                (
                    name,
                    match parse_i32_spec(pid) {
                        Some(v) => v,
                        None => 0,
                    },
                ),
            ),
            _ => None,
        },
        None => None,
    }
}

/// The bytes sent and received that a detail line holds.
pub open spec fn bytes_of(line: Seq<char>) -> Option<(u64, u64)> {
    match regex_captures(SS_BYTES@, line) {
        Some(g) => Some((count(group(g, 1)), count(group(g, 2)))),
        None => None,
    }
}

/// A process's traffic: bytes sent, bytes received, pid, connections, name
/// and command.
pub type CounterView = (u64, u64, i32, u32, Seq<char>, Seq<char>);

/// The connection whose detail line comes next: group key, name, command, pid.
pub type PendingView = (Seq<char>, Seq<char>, Seq<char>, i32);

/// Connections are grouped by `<pid>|<command>`.
pub open spec fn group_key(pid: i32, command: Seq<char>) -> Seq<char> {
    signed_decimal(pid as int) + seq!['|'] + command
}

pub open spec fn pending_view(name: Seq<char>, pid: i32, command: Seq<char>) -> PendingView {
    (group_key(pid, command), name, command, pid)
}

/// One more connection of the pending connection's process, with its bytes;
/// a process not seen yet starts from zero.
pub open spec fn add_connection(
    groups: Map<Seq<char>, CounterView>,
    p: PendingView,
    sent: u64,
    recv: u64,
) -> Map<Seq<char>, CounterView> {
    let c = if groups.contains_key(p.0) {
        groups[p.0]
    } else {
        (0u64, 0u64, p.3, 0u32, p.1, p.2)
    };
    groups.insert(
        p.0,
        (c.0.saturating_add(sent), c.1.saturating_add(recv), c.2, c.3.saturating_add(1), c.4, c.5),
    )
}

/// What one line does: blank lines nothing; a detail line adds the pending
/// connection (where there is one and the line has byte counters) and ends
/// it; any other line ends the pending connection and, where it names an
/// owner, returns that owner, whose command then opens the next connection.
pub open spec fn feed_step(
    groups: Map<Seq<char>, CounterView>,
    pending: Option<PendingView>,
    line: Seq<char>,
) -> (Map<Seq<char>, CounterView>, Option<PendingView>, Option<(Seq<char>, i32)>) {
    if is_blank(line) {
        (groups, pending, None)
    } else if is_detail(line) {
        match pending {
            None => (groups, None, None),
            Some(p) => match bytes_of(line) {
                None => (groups, None, None),
                Some((sent, recv)) => (add_connection(groups, p, sent, recv), None, None),
            },
        }
    } else {
        (groups, None, owner_of(line))
    }
}

/// A process's traffic over its connections.
#[derive(Debug)]
pub struct BandwidthCounter {
    pub sent: u64,
    pub recv: u64,
    pub pid: i32,
    pub connections: u32,
    pub name: String,
    pub command: String,
}

impl BandwidthCounter {
    pub open spec fn view(self) -> CounterView {
        (self.sent, self.recv, self.pid, self.connections, self.name@, self.command@)
    }
}

pub open spec fn counters_view(m: Map<Seq<char>, BandwidthCounter>) -> Map<Seq<char>, CounterView> {
    m.map_values(|c: BandwidthCounter| c.view())
}

struct PendingConnection {
    key: String,
    name: String,
    command: String,
    pid: i32,
}

/// The grouping of connections, fed one line of `ss` output at a time.
pub struct BandwidthScan {
    owner: Pattern,
    bytes: Pattern,
    groups: LabelMap<BandwidthCounter>,
    current: Option<PendingConnection>,
}

impl BandwidthScan {
    /// The scan matches with the two patterns above.
    pub closed spec fn wf(self) -> bool {
        self.owner@ == SS_OWNER@ && self.bytes@ == SS_BYTES@
    }

    /// The traffic of each process so far.
    pub closed spec fn groups(self) -> Map<Seq<char>, CounterView> {
        counters_view(self.groups.map())
    }

    /// The connection whose detail line may come next.
    pub closed spec fn pending(self) -> Option<PendingView> {
        match self.current {
            Some(p) => Some((p.key@, p.name@, p.command@, p.pid)),
            None => None,
        }
    }

    /// An empty grouping; `None` where a pattern does not compile.
    pub fn new() -> (r: Option<Self>)
        ensures
            r.is_some() == (regex_compiles(SS_OWNER@) && regex_compiles(SS_BYTES@)),
            r matches Some(s) ==> s.wf() && s.groups() == Map::<Seq<char>, CounterView>::empty()
                && s.pending().is_none(),
    {
        let owner = match compile(SS_OWNER) {
            Some(p) => p,
            None => return None,
        };
        let bytes = match compile(SS_BYTES) {
            Some(p) => p,
            None => return None,
        };
        let s = BandwidthScan { owner, bytes, groups: LabelMap::new(), current: None };
        assert(s.groups() =~= Map::<Seq<char>, CounterView>::empty());
        Some(s)
    }

    /// Feeds one line. Where it names a connection's owner, returns the name
    /// and pid: the owner's command is then to be given to `open_connection`.
    pub fn feed(&mut self, line: &str) -> (r: Option<(String, i32)>)
        requires
            old(self).wf(),
        ensures
            final(self).wf(),
            ({
                let (g, p, o) = feed_step(old(self).groups(), old(self).pending(), line@);
                &&& final(self).groups() == g
                &&& final(self).pending() == p
                &&& match o {
                    Some(owner) => r.is_some() && r.unwrap().0@ == owner.0 && r.unwrap().1
                        == owner.1,
                    None => r.is_none(),
                }
            }),
    {
        let cs = to_chars(line);
        let (a, b) = trim_span(cs.as_slice());
        if a == b {
            return None;
        }
        if cs.len() > 0 && (cs[0] == ' ' || cs[0] == '\t') {
            let conn = match self.current.take() {
                Some(c) => c,
                None => return None,
            };
            let groups = match captures(&self.bytes, line) {
                Some(g) => g,
                None => return None,
            };
            let sent = count_text(group_at(&groups, 1));
            let recv = count_text(group_at(&groups, 2));
            self.add(conn, sent, recv);
            return None;
        }
        self.current = None;
        let groups = match captures(&self.owner, line) {
            Some(g) => g,
            None => return None,
        };
        match (group_at(&groups, 1), group_at(&groups, 2)) {
            (Some(name), Some(pid_text)) => {
                let pid_chars = to_chars(pid_text.as_str());
                let pid = match parse_i32(pid_chars.as_slice()) {
                    Some(v) => v,
                    None => 0,
                };
                Some((name.clone(), pid))
            },
            _ => None,
        }
    }

    fn add(&mut self, conn: PendingConnection, sent: u64, recv: u64)
        requires
            old(self).wf(),
        ensures
            final(self).wf(),
            final(self).groups() == add_connection(
                old(self).groups(),
                (conn.key@, conn.name@, conn.command@, conn.pid),
                sent,
                recv,
            ),
            final(self).pending() == old(self).pending(),
    {
        let ghost before = self.groups.map();
        let counter = match self.groups.get(conn.key.as_str()) {
            Some(c) => BandwidthCounter {
                sent: c.sent.saturating_add(sent),
                recv: c.recv.saturating_add(recv),
                pid: c.pid,
                connections: c.connections.saturating_add(1),
                name: c.name.clone(),
                command: c.command.clone(),
            },
            None => BandwidthCounter {
                sent: 0u64.saturating_add(sent),
                recv: 0u64.saturating_add(recv),
                pid: conn.pid,
                connections: 0u32.saturating_add(1),
                name: conn.name,
                command: conn.command,
            },
        };
        let ghost cv = counter.view();
        self.groups.insert(conn.key, counter);
        assert(counters_view(self.groups.map()) =~= counters_view(before).insert(conn.key@, cv));
    }

    /// Opens the connection of the owner that `feed` returned last, with the
    /// owner's command.
    pub fn open_connection(&mut self, name: String, pid: i32, command: String)
        requires
            old(self).wf(),
        ensures
            final(self).wf(),
            final(self).groups() == old(self).groups(),
            final(self).pending() == Some(pending_view(name@, pid, command@)),
    {
        let mut key_chars = i32_text(pid);
        key_chars.push('|');
        let mut key = to_string(key_chars.as_slice());
        key.append(command.as_str());
        self.current = Some(PendingConnection { key, name, command, pid });
    }

    /// The traffic of each process, keyed by `<pid>|<command>`.
    pub fn into_groups(self) -> (r: LabelMap<BandwidthCounter>)
        ensures
            counters_view(r.map()) == self.groups(),
    {
        self.groups
    }
}

fn count_text(text: Option<&String>) -> (r: u64)
    ensures
        r == count(
            match text {
                Some(t) => Some(t@),
                None => None,
            },
        ),
{
    match text {
        Some(t) => {
            let cs = to_chars(t.as_str());
            match parse_u64(cs.as_slice()) {
                Some(v) => v,
                None => 0,
            }
        },
        None => 0,
    }
}

/// A process's traffic growth between two samples.
#[derive(Debug)]
pub struct BandwidthDelta {
    pub name: String,
    pub command: String,
    pub pid: i32,
    pub connections: u32,
    pub sent: u64,
    pub recv: u64,
}

/// (name, command, pid, connections, sent growth, received growth).
pub type DeltaView = (Seq<char>, Seq<char>, i32, u32, u64, u64);

/// For each process of the current sample, in its order, that the previous
/// sample also has: its growth in bytes sent and received, floored at 0.
pub open spec fn bandwidth_deltas_spec(
    prev: Map<Seq<char>, CounterView>,
    curr: Seq<(Seq<char>, CounterView)>,
) -> Seq<DeltaView>
    decreases curr.len(),
{
    if curr.len() == 0 {
        Seq::empty()
    } else {
        let r = bandwidth_deltas_spec(prev, curr.drop_last());
        let (key, c) = curr.last();
        if prev.contains_key(key) {
            r.push((c.4, c.5, c.2, c.3, c.0.saturating_sub(prev[key].0), c.1.saturating_sub(prev[key].1)))
        } else {
            r
        }
    }
}

pub open spec fn pair_views(pairs: Seq<(Seq<char>, BandwidthCounter)>) -> Seq<(Seq<char>, CounterView)> {
    pairs.map_values(|p: (Seq<char>, BandwidthCounter)| (p.0, p.1.view()))
}

pub open spec fn delta_views(ds: Seq<BandwidthDelta>) -> Seq<DeltaView> {
    ds.map_values(|d: BandwidthDelta| (d.name@, d.command@, d.pid, d.connections, d.sent, d.recv))
}

pub fn bandwidth_deltas(prev: &LabelMap<BandwidthCounter>, curr: &LabelMap<BandwidthCounter>) -> (r:
    Vec<BandwidthDelta>)
    ensures
        delta_views(r@) == bandwidth_deltas_spec(counters_view(prev.map()), pair_views(curr.pairs())),
{
    let n = curr.len();
    let ghost cp = pair_views(curr.pairs());
    let mut r: Vec<BandwidthDelta> = Vec::new();
    let mut k: usize = 0;
    assert(cp.take(0) =~= Seq::<(Seq<char>, CounterView)>::empty());
    assert(delta_views(r@) =~= Seq::<DeltaView>::empty());
    while k < n
        invariant
            n == curr.pairs().len(),
            cp == pair_views(curr.pairs()),
            k <= n,
            delta_views(r@) == bandwidth_deltas_spec(counters_view(prev.map()), cp.take(k as int)),
        decreases n - k,
    {
        let (key, c) = curr.entry(k);
        assert(cp.take(k + 1).drop_last() == cp.take(k as int));
        assert(cp.take(k + 1).last() == cp[k as int]);
        assert(cp[k as int] == (key@, c.view()));
        match prev.get(key.as_str()) {
            Some(before) => {
                let d = BandwidthDelta {
                    name: c.name.clone(),
                    command: c.command.clone(),
                    pid: c.pid,
                    connections: c.connections,
                    sent: c.sent.saturating_sub(before.sent),
                    recv: c.recv.saturating_sub(before.recv),
                };
                let ghost old_r = r@;
                let ghost dv = (
                    c.name@,
                    c.command@,
                    c.pid,
                    c.connections,
                    c.sent.saturating_sub(before.sent),
                    c.recv.saturating_sub(before.recv),
                );
                r.push(d);
                assert(counters_view(prev.map())[key@] == before.view());
                assert(delta_views(r@) =~= delta_views(old_r).push(dv));
            },
            None => {},
        }
        k = k + 1;
    }
    assert(cp.take(n as int) == cp);
    r
}

/// Traffic measured against itself shows every process, with no growth.
pub proof fn law_same_traffic_no_growth(pairs: Seq<(Seq<char>, CounterView)>)
    requires
        labels_distinct(pairs),
    ensures
        bandwidth_deltas_spec(map_of(pairs), pairs).len() == pairs.len(),
        forall|i: int|
            0 <= i < pairs.len() ==> #[trigger] bandwidth_deltas_spec(map_of(pairs), pairs)[i] == (
                pairs[i].1.4,
                pairs[i].1.5,
                pairs[i].1.2,
                pairs[i].1.3,
                0u64,
                0u64,
            ),
{
    lemma_map_of(pairs);
    assert forall|i: int| 0 <= i < pairs.len() implies #[trigger] map_of(pairs).contains_key(
        pairs[i].0,
    ) && map_of(pairs)[pairs[i].0] == pairs[i].1 by {
        assert(map_of(pairs).contains_key(pairs[i].0));
    }
    lemma_traffic_against_superset(map_of(pairs), pairs);
}

proof fn lemma_traffic_against_superset(
    prev: Map<Seq<char>, CounterView>,
    pairs: Seq<(Seq<char>, CounterView)>,
)
    requires
        forall|i: int|
            0 <= i < pairs.len() ==> #[trigger] prev.contains_key(pairs[i].0) && prev[pairs[i].0]
                == pairs[i].1,
    ensures
        bandwidth_deltas_spec(prev, pairs).len() == pairs.len(),
        forall|i: int|
            0 <= i < pairs.len() ==> #[trigger] bandwidth_deltas_spec(prev, pairs)[i] == (
                pairs[i].1.4,
                pairs[i].1.5,
                pairs[i].1.2,
                pairs[i].1.3,
                0u64,
                0u64,
            ),
    decreases pairs.len(),
{
    if pairs.len() > 0 {
        let front = pairs.drop_last();
        assert forall|i: int| 0 <= i < front.len() implies #[trigger] prev.contains_key(front[i].0)
            && prev[front[i].0] == front[i].1 by {
            assert(front[i] == pairs[i]);
        }
        lemma_traffic_against_superset(prev, front);
        assert(prev.contains_key(pairs[pairs.len() - 1].0));
        assert forall|i: int| 0 <= i < pairs.len() implies #[trigger] bandwidth_deltas_spec(
            prev,
            pairs,
        )[i] == (pairs[i].1.4, pairs[i].1.5, pairs[i].1.2, pairs[i].1.3, 0u64, 0u64) by {
            if i < pairs.len() - 1 {
                assert(front[i] == pairs[i]);
            }
        }
    }
}

/// The traffic of the last sample, from which the next growth is measured.
pub struct BandwidthTracker {
    prev: Option<LabelMap<BandwidthCounter>>,
}

impl BandwidthTracker {
    pub closed spec fn last(self) -> Option<Map<Seq<char>, CounterView>> {
        match self.prev {
            Some(m) => Some(counters_view(m.map())),
            None => None,
        }
    }

    pub fn new() -> (t: Self)
        ensures
            t.last().is_none(),
    {
        BandwidthTracker { prev: None }
    }

    /// Records `curr` as the last sample and returns each process's growth
    /// since the previous one, `None` on the first sample.
    pub fn observe(&mut self, curr: LabelMap<BandwidthCounter>) -> (r: Option<Vec<BandwidthDelta>>)
        ensures
            final(self).last() == Some(counters_view(curr.map())),
            match old(self).last() {
                Some(prev) => r.is_some() && delta_views(r.unwrap()@) == bandwidth_deltas_spec(
                    prev,
                    pair_views(curr.pairs()),
                ),
                None => r.is_none(),
            },
    {
        let r = match &self.prev {
            Some(p) => Some(bandwidth_deltas(p, &curr)),
            None => None,
        };
        self.prev = Some(curr);
        r
    }
}

} // verus!
