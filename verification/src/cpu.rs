//! CPU time counters: reading them from the text of `/proc/stat`, and the
//! growth between two samples from which usage percentages are computed.
use vstd::prelude::*;
use crate::label_map::{labels_distinct, lemma_map_of, lemma_map_of_insert_at, map_of, LabelMap};
use crate::text::{
    has_prefix, line_spans, lines, parse_u64, parse_u64_spec, spans_locate, starts_with,
    to_chars, to_string, word_spans, words,
};

verus! {

/// The jiffies that a `cpu` line of `/proc/stat` counts, in its column order.
#[derive(Clone, Copy, Debug, PartialEq, Eq, Structural)]
pub struct CpuTimes {
    pub user: u64,
    pub nice: u64,
    pub system: u64,
    pub idle: u64,
    pub iowait: u64,
    pub irq: u64,
    pub softirq: u64,
}

impl CpuTimes {
    /// Busy time: user, nice, system, irq and softirq, added without overflow.
    pub open spec fn spec_active(self) -> u64 {
        self.user.saturating_add(self.nice).saturating_add(self.system).saturating_add(
            self.irq,
        ).saturating_add(self.softirq)
    }

    /// All time: busy time, idle and iowait, added without overflow.
    pub open spec fn spec_total(self) -> u64 {
        self.spec_active().saturating_add(self.idle).saturating_add(self.iowait)
    }

    pub fn active(self) -> (r: u64)
        ensures
            r == self.spec_active(),
    {
        self.user.saturating_add(self.nice).saturating_add(self.system).saturating_add(
            self.irq,
        ).saturating_add(self.softirq)
    }

    pub fn total(self) -> (r: u64)
        ensures
            r == self.spec_total(),
    {
        self.active().saturating_add(self.idle).saturating_add(self.iowait)
    }
}

/// Busy time never exceeds all time.
pub proof fn lemma_active_within_total(t: CpuTimes)
    ensures
        t.spec_active() <= t.spec_total(),
{
}

/// Busy time is the sum of user, nice, system, irq and softirq time, and all
/// time adds idle and iowait to it; each capped at `u64::MAX`.
pub proof fn law_times_are_capped_sums(t: CpuTimes)
    ensures
        t.spec_active() as int == if t.user + t.nice + t.system + t.irq + t.softirq > u64::MAX {
            u64::MAX as int
        } else {
            t.user + t.nice + t.system + t.irq + t.softirq
        },
        t.spec_total() as int == if t.user + t.nice + t.system + t.irq + t.softirq + t.idle
            + t.iowait > u64::MAX {
            u64::MAX as int
        } else {
            t.user + t.nice + t.system + t.irq + t.softirq + t.idle + t.iowait
        },
{
}

pub open spec fn cpu_word() -> Seq<char> {
    seq!['c', 'p', 'u']
}

/// The line of all CPUs together starts with `cpu` and a space.
pub open spec fn is_total_line(line: Seq<char>) -> bool {
    has_prefix(line, cpu_word().push(' '))
}

/// The number in column `k`, or 0 where there is no such column or it does
/// not parse as a `u64`.
pub open spec fn field_value(ws: Seq<Seq<char>>, k: int) -> u64 {
    if 0 <= k < ws.len() {
        match parse_u64_spec(ws[k]) {
            Some(v) => v,
            None => 0,
        }
    } else {
        0
    }
}

/// The counters of a line split into words, the label being word 0.
pub open spec fn times_from_fields(ws: Seq<Seq<char>>) -> CpuTimes {
    CpuTimes {
        user: field_value(ws, 1),
        nice: field_value(ws, 2),
        system: field_value(ws, 3),
        idle: field_value(ws, 4),
        iowait: field_value(ws, 5),
        irq: field_value(ws, 6),
        softirq: field_value(ws, 7),
    }
}

/// The first line of `ls` that is the all-CPU line.
pub open spec fn first_total_line(ls: Seq<Seq<char>>) -> Option<Seq<char>>
    decreases ls.len(),
{
    if ls.len() == 0 {
        None
    } else if is_total_line(ls[0]) {
        Some(ls[0])
    } else {
        first_total_line(ls.drop_first())
    }
}

/// The all-CPU counters that `/proc/stat` text holds, if it has such a line.
pub open spec fn stat_total(content: Seq<char>) -> Option<CpuTimes> {
    match first_total_line(lines(content)) {
        Some(line) => Some(times_from_fields(words(line))),
        None => None,
    }
}

/// The per-core entry of a line: a label that starts with `cpu` and is not
/// `cpu` itself, followed by at least seven counters.
pub open spec fn core_entry(line: Seq<char>) -> Option<(Seq<char>, CpuTimes)> {
    let ws = words(line);
    if ws.len() >= 8 && has_prefix(ws[0], cpu_word()) && ws[0] != cpu_word() {
        Some((ws[0], times_from_fields(ws)))
    } else {
        None
    }
}

/// The per-core counters of lines taken in order, a later line with the same
/// label replacing an earlier one.
pub open spec fn core_map(ls: Seq<Seq<char>>) -> Map<Seq<char>, CpuTimes>
    decreases ls.len(),
{
    if ls.len() == 0 {
        Map::empty()
    } else {
        let m = core_map(ls.drop_last());
        match core_entry(ls.last()) {
            Some(e) => m.insert(e.0, e.1),
            None => m,
        }
    }
}

/// The per-core table holds only core labels: each starts with `cpu` and
/// none is the all-CPU label `cpu` itself.
pub proof fn law_core_labels(ls: Seq<Seq<char>>)
    ensures
        forall|k: Seq<char>|
            #[trigger] core_map(ls).contains_key(k) ==> has_prefix(k, cpu_word()) && k
                != cpu_word(),
    decreases ls.len(),
{
    if ls.len() > 0 {
        law_core_labels(ls.drop_last());
        let m = core_map(ls.drop_last());
        assert forall|k: Seq<char>| #[trigger] core_map(ls).contains_key(k) implies has_prefix(
            k,
            cpu_word(),
        ) && k != cpu_word() by {
            if !m.contains_key(k) {
                let e = core_entry(ls.last()).unwrap();
                assert(k == e.0);
            }
        }
    }
}

fn field_at(line: &[char], spans: &Vec<(usize, usize)>, k: usize) -> (v: u64)
    requires
        spans_locate(line@, spans@, words(line@)),
    ensures
        v == field_value(words(line@), k as int),
{
    if k < spans.len() {
        let (a, b) = spans[k];
        match parse_u64(&line[a..b]) {
            Some(v) => v,
            None => 0,
        }
    } else {
        0
    }
}

fn times_from_line(line: &[char], spans: &Vec<(usize, usize)>) -> (t: CpuTimes)
    requires
        spans_locate(line@, spans@, words(line@)),
    ensures
        t == times_from_fields(words(line@)),
{
    CpuTimes {
        user: field_at(line, spans, 1),
        nice: field_at(line, spans, 2),
        system: field_at(line, spans, 3),
        idle: field_at(line, spans, 4),
        iowait: field_at(line, spans, 5),
        irq: field_at(line, spans, 6),
        softirq: field_at(line, spans, 7),
    }
}

/// The counters of the first line of `/proc/stat` text that starts with
/// `cpu `, a missing or malformed column counting 0; `None` without such a
/// line.
pub fn parse_cpu_total_from_stat(content: &str) -> (r: Option<CpuTimes>)
    ensures
        r == stat_total(content@),
{
    let cs = to_chars(content);
    let spans = line_spans(cs.as_slice());
    let prefix: Vec<char> = vec!['c', 'p', 'u', ' '];
    assert(prefix@ == cpu_word().push(' '));
    let ghost ls = lines(cs@);
    let mut k: usize = 0;
    assert(ls.skip(0) == ls);
    while k < spans.len()
        invariant
            cs@ == content@,
            ls == lines(cs@),
            prefix@ == cpu_word().push(' '),
            spans_locate(cs@, spans@, ls),
            k <= spans@.len(),
            first_total_line(ls) == first_total_line(ls.skip(k as int)),
        decreases spans.len() - k,
    {
        let (a, b) = spans[k];
        let line = &cs.as_slice()[a..b];
        assert(line@ == ls[k as int]);
        assert(ls.skip(k as int)[0] == ls[k as int]);
        if starts_with(line, prefix.as_slice()) {
            let ws = word_spans(line);
            return Some(times_from_line(line, &ws));
        }
        assert(ls.skip(k as int).drop_first() == ls.skip(k + 1));
        k = k + 1;
    }
    None
}

fn core_entry_of_line(line: &[char]) -> (r: Option<(String, CpuTimes)>)
    ensures
        match core_entry(line@) {
            Some(e) => r.is_some() && r.unwrap().0@ == e.0 && r.unwrap().1 == e.1,
            None => r.is_none(),
        },
{
    let ws = word_spans(line);
    if ws.len() < 8 {
        return None;
    }
    let (a, b) = ws[0];
    let label = &line[a..b];
    let word: Vec<char> = vec!['c', 'p', 'u'];
    assert(word@ == cpu_word());
    if !starts_with(label, word.as_slice()) || label.len() == 3 {
        if label.len() == 3 && starts_with(label, word.as_slice()) {
            assert(label@ =~= label@.take(3));
        }
        return None;
    }
    Some((to_string(label), times_from_line(line, &ws)))
}

/// The per-core counters of `/proc/stat` text: each line whose first word
/// starts with `cpu`, is not `cpu` itself and has at least seven more words
/// gives that label its counters; a later line with the same label wins.
pub fn parse_core_times_from_stat(content: &str) -> (r: LabelMap<CpuTimes>)
    ensures
        r.map() == core_map(lines(content@)),
{
    let cs = to_chars(content);
    let spans = line_spans(cs.as_slice());
    let ghost ls = lines(cs@);
    let mut m: LabelMap<CpuTimes> = LabelMap::new();
    let mut k: usize = 0;
    assert(ls.take(0) =~= Seq::<Seq<char>>::empty());
    while k < spans.len()
        invariant
            cs@ == content@,
            ls == lines(cs@),
            spans_locate(cs@, spans@, ls),
            k <= spans@.len(),
            m.map() == core_map(ls.take(k as int)),
        decreases spans.len() - k,
    {
        let (a, b) = spans[k];
        let line = &cs.as_slice()[a..b];
        assert(line@ == ls[k as int]);
        assert(ls.take(k + 1).drop_last() == ls.take(k as int));
        assert(ls.take(k + 1).last() == ls[k as int]);
        match core_entry_of_line(line) {
            Some((label, times)) => {
                m.insert(label, times);
            },
            None => {},
        }
        k = k + 1;
    }
    assert(ls.take(ls.len() as int) == ls);
    m
}

// ---------------------------------------------------------------- usage

/// The growth of busy time and of all time from `prev` to `curr`, each
/// floored at 0; `None` where all time did not grow.
pub open spec fn usage_delta(prev: CpuTimes, curr: CpuTimes) -> Option<(u64, u64)> {
    let total = curr.spec_total().saturating_sub(prev.spec_total());
    if total == 0 {
        None
    } else {
        Some((curr.spec_active().saturating_sub(prev.spec_active()), total))
    }
}

/// The busy and total growth between two samples, which usage is the ratio of.
pub fn cpu_usage_delta(prev: CpuTimes, curr: CpuTimes) -> (r: Option<(u64, u64)>)
    ensures
        r == usage_delta(prev, curr),
{
    let total = curr.total().saturating_sub(prev.total());
    if total == 0 {
        None
    } else {
        Some((curr.active().saturating_sub(prev.active()), total))
    }
}

/// A sample measured against itself shows no usage.
pub proof fn law_same_sample_no_usage(t: CpuTimes)
    ensures
        usage_delta(t, t).is_none(),
{
}

/// Usage is measured exactly where all time grew; the busy growth is the
/// growth of user, nice, system, irq and softirq time together (0 where it
/// shrank) and the total growth that of all time.
pub proof fn law_usage_delta_is_growth(prev: CpuTimes, curr: CpuTimes)
    ensures
        usage_delta(prev, curr).is_some() <==> curr.spec_total() > prev.spec_total(),
        usage_delta(prev, curr) matches Some((busy, all)) ==> {
            &&& all == curr.spec_total() - prev.spec_total()
            &&& busy == if curr.spec_active() >= prev.spec_active() {
                curr.spec_active() - prev.spec_active()
            } else {
                0
            }
        },
{
}

/// Time added to one busy column alone (here system time) adds as much to the
/// busy growth, where nothing saturates.
pub proof fn law_system_time_counts_as_busy(prev: CpuTimes, curr: CpuTimes, extra: u64)
    requires
        curr.spec_total() > prev.spec_total(),
        curr.spec_active() >= prev.spec_active(),
        curr.user + curr.nice + curr.system + curr.irq + curr.softirq + curr.idle + curr.iowait
            + extra <= u64::MAX,
    ensures
        usage_delta(prev, CpuTimes { system: (curr.system + extra) as u64, ..curr }) matches Some(
            (busy, _),
        ) && usage_delta(prev, curr) matches Some((busy0, _)) && busy == busy0 + extra,
{
    law_times_are_capped_sums(prev);
    law_times_are_capped_sums(curr);
    law_times_are_capped_sums(CpuTimes { system: (curr.system + extra) as u64, ..curr });
}

/// The last all-CPU sample, from which the next usage is measured.
pub struct CpuUsageTracker {
    prev: Option<CpuTimes>,
}

impl CpuUsageTracker {
    pub closed spec fn last(self) -> Option<CpuTimes> {
        self.prev
    }

    pub fn new() -> (t: Self)
        ensures
            t.last() == None::<CpuTimes>,
    {
        CpuUsageTracker { prev: None }
    }

    /// Records `curr` as the last sample and returns the growth since the
    /// previous one; `None` on the first sample or where all time did not grow.
    pub fn observe(&mut self, curr: CpuTimes) -> (r: Option<(u64, u64)>)
        ensures
            final(self).last() == Some(curr),
            r == match old(self).last() {
                Some(prev) => usage_delta(prev, curr),
                None => None,
            },
    {
        let prev = self.prev;
        self.prev = Some(curr);
        match prev {
            Some(p) => cpu_usage_delta(p, curr),
            None => None,
        }
    }
}

// ---------------------------------------------------------------- per core

/// `a` sorts strictly before `b` as strings do: by code points, a proper
/// prefix first.
pub open spec fn label_before(a: Seq<char>, b: Seq<char>) -> bool
    decreases a.len(),
{
    if a.len() == 0 {
        b.len() > 0
    } else if b.len() == 0 {
        false
    } else if a[0] != b[0] {
        a[0] < b[0]
    } else {
        label_before(a.drop_first(), b.drop_first())
    }
}

/// Label order is a strict total order.
pub proof fn lemma_label_order(a: Seq<char>, b: Seq<char>, c: Seq<char>)
    ensures
        !label_before(a, a),
        label_before(a, b) ==> !label_before(b, a),
        a != b ==> label_before(a, b) || label_before(b, a),
        label_before(a, b) && label_before(b, c) ==> label_before(a, c),
{
    lemma_label_irreflexive(a);
    lemma_label_asymmetric_total(a, b);
    lemma_label_transitive(a, b, c);
}

proof fn lemma_label_irreflexive(a: Seq<char>)
    ensures
        !label_before(a, a),
    decreases a.len(),
{
    if a.len() > 0 {
        lemma_label_irreflexive(a.drop_first());
    }
}

proof fn lemma_label_asymmetric_total(a: Seq<char>, b: Seq<char>)
    ensures
        label_before(a, b) ==> !label_before(b, a),
        a != b ==> label_before(a, b) || label_before(b, a),
    decreases a.len(),
{
    if a.len() > 0 && b.len() > 0 {
        lemma_label_asymmetric_total(a.drop_first(), b.drop_first());
        if a != b && a[0] == b[0] {
            assert(a.drop_first() != b.drop_first()) by {
                if a.drop_first() == b.drop_first() {
                    assert(a =~= seq![a[0]] + a.drop_first());
                    assert(b =~= seq![b[0]] + b.drop_first());
                }
            }
        }
    } else if a.len() == 0 && b.len() == 0 {
        assert(a =~= b);
    }
}

proof fn lemma_label_transitive(a: Seq<char>, b: Seq<char>, c: Seq<char>)
    ensures
        label_before(a, b) && label_before(b, c) ==> label_before(a, c),
    decreases a.len(),
{
    if a.len() > 0 && b.len() > 0 && c.len() > 0 {
        lemma_label_transitive(a.drop_first(), b.drop_first(), c.drop_first());
    }
}

pub fn label_less(a: &[char], b: &[char]) -> (r: bool)
    ensures
        r == label_before(a@, b@),
{
    let mut i: usize = 0;
    assert(a@.skip(0) == a@ && b@.skip(0) == b@);
    while i < a.len() && i < b.len() && a[i] == b[i]
        invariant
            i <= a@.len(),
            i <= b@.len(),
            label_before(a@, b@) == label_before(a@.skip(i as int), b@.skip(i as int)),
        decreases a.len() - i,
    {
        assert(a@.skip(i as int).drop_first() == a@.skip(i + 1));
        assert(b@.skip(i as int).drop_first() == b@.skip(i + 1));
        i = i + 1;
    }
    if i == a.len() {
        i < b.len()
    } else if i == b.len() {
        false
    } else {
        a[i] < b[i]
    }
}

/// One core's busy and total growth between two samples.
#[derive(Debug)]
pub struct CoreDelta {
    pub label: String,
    pub active: u64,
    pub total: u64,
}

pub open spec fn delta_pairs(ds: Seq<CoreDelta>) -> Seq<(Seq<char>, (u64, u64))> {
    ds.map_values(|d: CoreDelta| (d.label@, (d.active, d.total)))
}

pub open spec fn labels_ascending(ds: Seq<CoreDelta>) -> bool {
    forall|i: int, j: int|
        0 <= i < j < ds.len() ==> label_before((#[trigger] ds[i]).label@, (#[trigger] ds[j]).label@)
}

/// The cores present in both samples whose total time grew, with their growth.
pub open spec fn core_usage(prev: Map<Seq<char>, CpuTimes>, curr: Map<Seq<char>, CpuTimes>) -> Map<
    Seq<char>,
    (u64, u64),
> {
    Map::new(
        |k: Seq<char>|
            curr.contains_key(k) && prev.contains_key(k) && usage_delta(prev[k], curr[k]) is Some,
        |k: Seq<char>| usage_delta(prev[k], curr[k]).unwrap(),
    )
}

/// The growth of each core present in both samples whose total time grew,
/// in ascending label order.
pub fn core_deltas(prev: &LabelMap<CpuTimes>, curr: &LabelMap<CpuTimes>) -> (r: Vec<CoreDelta>)
    ensures
        labels_ascending(r@),
        map_of(delta_pairs(r@)) == core_usage(prev.map(), curr.map()),
{
    let n = curr.len();
    let ghost cp = curr.pairs();
    let mut r: Vec<CoreDelta> = Vec::new();
    let mut idx: usize = 0;
    proof {
        assert(cp.take(0) =~= Seq::<(Seq<char>, CpuTimes)>::empty());
        assert(delta_pairs(r@) =~= Seq::<(Seq<char>, (u64, u64))>::empty());
        assert(core_usage(prev.map(), map_of(cp.take(0))) =~= Map::<Seq<char>, (u64, u64)>::empty());
    }
    while idx < n
        invariant
            n == cp.len(),
            cp == curr.pairs(),
            labels_distinct(cp),
            idx <= n,
            labels_ascending(r@),
            labels_distinct(delta_pairs(r@)),
            forall|i: int| 0 <= i < r@.len() ==> exists|j: int| 0 <= j < idx && (#[trigger] r@[i]).label@ == cp[j].0,
            map_of(delta_pairs(r@)) == core_usage(prev.map(), map_of(cp.take(idx as int))),
        decreases n - idx,
    {
        let (label, times) = curr.entry(idx);
        let ghost before = r@;
        let ghost key = label@;
        proof {
            assert(cp.take(idx + 1).drop_last() == cp.take(idx as int));
            assert(cp.take(idx + 1).last() == cp[idx as int]);
            assert(labels_distinct(cp.take(idx as int))) by {
                assert forall|a: int, b: int| 0 <= a < b < cp.take(idx as int).len() implies (
                #[trigger] cp.take(idx as int)[a]).0 != (#[trigger] cp.take(idx as int)[b]).0 by {
                    assert(cp[a].0 != cp[b].0);
                }
            }
            lemma_map_of(cp.take(idx as int));
            assert(!map_of(cp.take(idx as int)).contains_key(key)) by {
                if map_of(cp.take(idx as int)).contains_key(key) {
                    let j = choose|j: int| 0 <= j < cp.take(idx as int).len() && cp.take(idx as int)[j].0 == key;
                    assert(cp[j].0 != cp[idx as int].0);
                }
            }
            assert forall|i: int| 0 <= i < before.len() implies #[trigger] delta_pairs(before)[i].0 != key by {
                let j = choose|j: int| 0 <= j < idx && before[i].label@ == cp[j].0;
                assert(cp[j].0 != cp[idx as int].0);
            }
        }
        let key_chars = to_chars(label.as_str());
        let delta = match prev.get(label.as_str()) {
            Some(p) => cpu_usage_delta(*p, *times),
            None => None,
        };
        let ghost m_old = map_of(cp.take(idx as int));
        let ghost m_new = map_of(cp.take(idx + 1));
        assert(m_new == m_old.insert(key, *times));
        match delta {
            Some((active, total)) => {
                // find the place of `label` among the labels already sorted
                let mut p: usize = 0;
                while p < r.len()
                    invariant
                        r@ == before,
                        key_chars@ == key,
                        p <= r@.len(),
                        forall|i: int| 0 <= i < p ==> label_before((#[trigger] r@[i]).label@, key),
                    ensures
                        p < r@.len() ==> !label_before(r@[p as int].label@, key),
                    decreases r.len() - p,
                {
                    let other = to_chars(r[p].label.as_str());
                    if !label_less(other.as_slice(), key_chars.as_slice()) {
                        break;
                    }
                    p = p + 1;
                }
                proof {
                    if p < r@.len() {
                        assert(delta_pairs(before)[p as int].0 == r@[p as int].label@);
                        assert(r@[p as int].label@ != key);
                        lemma_label_order(r@[p as int].label@, key, key);
                    }
                }
                let d = CoreDelta { label: label.clone(), active, total };
                r.insert(p, d);
                proof {
                    assert(delta_pairs(r@) =~= delta_pairs(before).insert(p as int, (key, (active, total))));
                    lemma_map_of_insert_at(delta_pairs(before), p as int, (key, (active, total)));
                    assert forall|i: int, j: int| 0 <= i < j < r@.len() implies label_before(
                        (#[trigger] r@[i]).label@,
                        (#[trigger] r@[j]).label@,
                    ) by {
                        if i < p && j < p {
                            assert(r@[i] == before[i] && r@[j] == before[j]);
                        } else if i < p && j == p {
                            assert(r@[i] == before[i]);
                        } else if i < p && j > p {
                            assert(r@[i] == before[i] && r@[j] == before[j - 1]);
                        } else if i == p {
                            assert(r@[j] == before[j - 1]);
                            if j - 1 > p {
                                assert(label_before(before[p as int].label@, before[j - 1].label@));
                                lemma_label_order(key, before[p as int].label@, before[j - 1].label@);
                            }
                        } else {
                            assert(r@[i] == before[i - 1] && r@[j] == before[j - 1]);
                        }
                    }
                    assert forall|i: int| 0 <= i < r@.len() implies exists|j: int|
                        0 <= j < idx + 1 && (#[trigger] r@[i]).label@ == cp[j].0 by {
                        if i < p {
                            assert(r@[i] == before[i]);
                        } else if i > p {
                            assert(r@[i] == before[i - 1]);
                        } else {
                            assert(r@[i].label@ == cp[idx as int].0);
                        }
                    }
                    assert(core_usage(prev.map(), m_new) =~= core_usage(prev.map(), m_old).insert(
                        key,
                        (active, total),
                    ));
                }
            },
            None => {
                proof {
                    assert(core_usage(prev.map(), m_new) =~= core_usage(prev.map(), m_old));
                }
            },
        }
        idx = idx + 1;
    }
    proof {
        assert(cp.take(n as int) == cp);
    }
    r
}

/// Per-core counters measured against themselves show no core.
pub proof fn law_same_cores_no_usage(m: Map<Seq<char>, CpuTimes>)
    ensures
        core_usage(m, m) == Map::<Seq<char>, (u64, u64)>::empty(),
{
    assert(core_usage(m, m) =~= Map::<Seq<char>, (u64, u64)>::empty());
}

/// The per-core result lists every core present in both samples whose all
/// time grew, whatever its busy growth (zero included), and no other; each
/// with the growth of its busy time (0 where it shrank) and of its all time.
pub proof fn law_core_deltas_list_every_growing_core(
    prev: Map<Seq<char>, CpuTimes>,
    curr: Map<Seq<char>, CpuTimes>,
    r: Seq<CoreDelta>,
    k: Seq<char>,
)
    requires
        labels_ascending(r),
        map_of(delta_pairs(r)) == core_usage(prev, curr),
    ensures
        (exists|i: int| 0 <= i < r.len() && (#[trigger] r[i]).label@ == k) <==> (
        prev.contains_key(k) && curr.contains_key(k) && curr[k].spec_total()
            > prev[k].spec_total()),
        forall|i: int|
            0 <= i < r.len() ==> {
                let l = (#[trigger] r[i]).label@;
                &&& prev.contains_key(l) && curr.contains_key(l)
                &&& r[i].total == curr[l].spec_total() - prev[l].spec_total()
                &&& r[i].active == if curr[l].spec_active() >= prev[l].spec_active() {
                    curr[l].spec_active() - prev[l].spec_active()
                } else {
                    0
                }
            },
{
    let ps = delta_pairs(r);
    assert(labels_distinct(ps)) by {
        assert forall|a: int, b: int| 0 <= a < b < ps.len() implies (#[trigger] ps[a]).0 != (
        #[trigger] ps[b]).0 by {
            lemma_label_order(r[a].label@, r[b].label@, r[b].label@);
            assert(label_before(r[a].label@, r[b].label@));
        }
    }
    lemma_map_of(ps);
    if exists|i: int| 0 <= i < r.len() && (#[trigger] r[i]).label@ == k {
        let i = choose|i: int| 0 <= i < r.len() && (#[trigger] r[i]).label@ == k;
        assert(ps[i].0 == k);
        assert(map_of(ps).contains_key(k));
    }
    if prev.contains_key(k) && curr.contains_key(k) && curr[k].spec_total() > prev[k].spec_total() {
        assert(core_usage(prev, curr).contains_key(k));
        let i = choose|i: int| 0 <= i < ps.len() && ps[i].0 == k;
        assert(r[i].label@ == k);
    }
    assert forall|i: int| 0 <= i < r.len() implies {
        let l = (#[trigger] r[i]).label@;
        &&& prev.contains_key(l) && curr.contains_key(l)
        &&& r[i].total == curr[l].spec_total() - prev[l].spec_total()
        &&& r[i].active == if curr[l].spec_active() >= prev[l].spec_active() {
            curr[l].spec_active() - prev[l].spec_active()
        } else {
            0
        }
    } by {
        assert(ps[i] == (r[i].label@, (r[i].active, r[i].total)));
        assert(map_of(ps).contains_key(ps[i].0));
    }
}

/// The per-core counters of the last sample, from which the next per-core
/// usage is measured.
pub struct CoreUsageTracker {
    prev: LabelMap<CpuTimes>,
}

impl CoreUsageTracker {
    pub closed spec fn last(self) -> Map<Seq<char>, CpuTimes> {
        self.prev.map()
    }

    pub fn new() -> (t: Self)
        ensures
            t.last() == Map::<Seq<char>, CpuTimes>::empty(),
    {
        CoreUsageTracker { prev: LabelMap::new() }
    }

    /// Records `curr` as the last sample. Where the previous sample had no
    /// core, nothing is measured yet; otherwise the result is the growth of
    /// each core present in both, whose total time grew, by ascending label.
    pub fn observe(&mut self, curr: LabelMap<CpuTimes>) -> (r: Vec<CoreDelta>)
        ensures
            final(self).last() == curr.map(),
            old(self).last().dom().len() == 0 ==> r@.len() == 0,
            old(self).last().dom().len() != 0 ==> labels_ascending(r@) && map_of(delta_pairs(r@))
                == core_usage(old(self).last(), curr.map()),
    {
        if self.prev.is_empty() {
            self.prev = curr;
            return Vec::new();
        }
        let r = core_deltas(&self.prev, &curr);
        self.prev = curr;
        r
    }
}

} // verus!
