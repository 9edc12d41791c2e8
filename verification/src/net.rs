//! Network byte counters from the text of `/proc/net/dev`, matched line by
//! line with a regular expression, and their growth between two samples.
use vstd::prelude::*;
use crate::label_map::{labels_distinct, lemma_label_index, lemma_map_of, map_of, put_pair, label_index, LabelMap};
use crate::patterns::{captures, compile, group, group_at, regex_captures, regex_compiles};
use crate::text::{
    line_spans, lines, parse_u64, parse_u64_spec, spans_locate, to_chars, to_string, trim,
    trim_span,
};

verus! {

/// An interface line: its name, received bytes (column 1) and transmitted
/// bytes (column 9).
pub const NET_DEV_LINE: &'static str =
    "^\\s*([^:]+):\\s+(\\d+)\\s+\\d+\\s+\\d+\\s+\\d+\\s+\\d+\\s+\\d+\\s+\\d+\\s+\\d+\\s+(\\d+)";

/// The count a captured number gives: 0 where it is missing or does not
/// parse as a `u64`.
pub open spec fn count(text: Option<Seq<char>>) -> u64 {
    match text {
        Some(t) => match parse_u64_spec(t) {
            Some(v) => v,
            None => 0,
        },
        None => 0,
    }
}

fn count_of(text: Option<&String>) -> (r: u64)
    ensures
        r == count(
            match text {
                Some(t) => Some(t@),
                None => None,
            },
        ),
{
    match text {
        Some(t) => {
            let cs = to_chars(t.as_str());
            match parse_u64(cs.as_slice()) {
                Some(v) => v,
                None => 0,
            }
        },
        None => 0,
    }
}

/// The lines after the two header lines.
pub open spec fn data_lines(ls: Seq<Seq<char>>) -> Seq<Seq<char>> {
    if ls.len() <= 2 {
        Seq::empty()
    } else {
        ls.skip(2)
    }
}

/// Received and transmitted bytes summed, without overflow, over the lines
/// that match.
pub open spec fn net_totals(ls: Seq<Seq<char>>) -> (u64, u64)
    decreases ls.len(),
{
    if ls.len() == 0 {
        (0, 0)
    } else {
        let (rx, tx) = net_totals(ls.drop_last());
        match regex_captures(NET_DEV_LINE@, ls.last()) {
            Some(g) => (
                rx.saturating_add(count(group(g, 2))),
                tx.saturating_add(count(group(g, 3))),
            ),
            None => (rx, tx),
        }
    }
}

/// The entry of a matching line: the trimmed interface name with its
/// received and transmitted bytes.
pub open spec fn interface_entry(line: Seq<char>) -> Option<(Seq<char>, (u64, u64))> {
    match regex_captures(NET_DEV_LINE@, line) {
        Some(g) => match group(g, 1) {
            Some(name) => Some((trim(name), (count(group(g, 2)), count(group(g, 3))))),
            None => None,
        },
        None => None,
    }
}

/// The counters of each interface, a later line for the same name winning.
pub open spec fn interface_map(ls: Seq<Seq<char>>) -> Map<Seq<char>, (u64, u64)>
    decreases ls.len(),
{
    if ls.len() == 0 {
        Map::empty()
    } else {
        let m = interface_map(ls.drop_last());
        match interface_entry(ls.last()) {
            Some(e) => m.insert(e.0, e.1),
            None => m,
        }
    }
}

/// The interface pairs in the order their names first match, each holding
/// the counters of its last matching line.
pub open spec fn interface_pairs(ls: Seq<Seq<char>>) -> Seq<(Seq<char>, (u64, u64))>
    decreases ls.len(),
{
    if ls.len() == 0 {
        Seq::empty()
    } else {
        let p = interface_pairs(ls.drop_last());
        match interface_entry(ls.last()) {
            Some(e) => put_pair(p, e),
            None => p,
        }
    }
}

fn data_line_range(spans: &Vec<(usize, usize)>) -> (first: usize)
    ensures
        spans@.len() <= 2 ==> first == spans@.len(),
        spans@.len() > 2 ==> first == 2,
{
    if spans.len() <= 2 {
        spans.len()
    } else {
        2
    }
}

/// Bytes received and transmitted over all interfaces that `/proc/net/dev`
/// text lists, summed without overflow; (0, 0) where the line pattern does
/// not compile.
pub fn parse_net_dev_totals(content: &str) -> (r: (u64, u64))
    ensures
        r == if regex_compiles(NET_DEV_LINE@) {
            net_totals(data_lines(lines(content@)))
        } else {
            (0, 0)
        },
{
    let pattern = match compile(NET_DEV_LINE) {
        Some(p) => p,
        None => return (0, 0),
    };
    let cs = to_chars(content);
    let spans = line_spans(cs.as_slice());
    let ghost ls = lines(cs@);
    let ghost ds = data_lines(ls);
    let first = data_line_range(&spans);
    let mut rx: u64 = 0;
    let mut tx: u64 = 0;
    let mut k: usize = first;
    assert(ds.take(0) =~= Seq::<Seq<char>>::empty());
    while k < spans.len()
        invariant
            cs@ == content@,
            ls == lines(cs@),
            ds == data_lines(ls),
            spans_locate(cs@, spans@, ls),
            pattern@ == NET_DEV_LINE@,
            first <= k <= spans@.len(),
            spans@.len() <= 2 ==> first == spans@.len(),
            spans@.len() > 2 ==> first == 2,
            (rx, tx) == net_totals(ds.take(k - first)),
        decreases spans.len() - k,
    {
        let (a, b) = spans[k];
        let line = to_string(&cs.as_slice()[a..b]);
        assert(line@ == ds[k - first]);
        assert(ds.take(k - first + 1).drop_last() == ds.take(k - first));
        assert(ds.take(k - first + 1).last() == ds[k - first]);
        match captures(&pattern, line.as_str()) {
            Some(groups) => {
                rx = rx.saturating_add(count_of(group_at(&groups, 2)));
                tx = tx.saturating_add(count_of(group_at(&groups, 3)));
            },
            None => {},
        }
        k = k + 1;
    }
    assert(ds.take(ds.len() as int) == ds);
    (rx, tx)
}

/// The received and transmitted bytes of each interface that
/// `/proc/net/dev` text lists; empty where the line pattern does not compile.
pub fn parse_net_dev_interfaces(content: &str) -> (r: LabelMap<(u64, u64)>)
    ensures
        r.map() == if regex_compiles(NET_DEV_LINE@) {
            interface_map(data_lines(lines(content@)))
        } else {
            Map::empty()
        },
        r.pairs() == if regex_compiles(NET_DEV_LINE@) {
            interface_pairs(data_lines(lines(content@)))
        } else {
            Seq::empty()
        },
{
    let mut m: LabelMap<(u64, u64)> = LabelMap::new();
    let pattern = match compile(NET_DEV_LINE) {
        Some(p) => p,
        None => return m,
    };
    let cs = to_chars(content);
    let spans = line_spans(cs.as_slice());
    let ghost ls = lines(cs@);
    let ghost ds = data_lines(ls);
    let first = data_line_range(&spans);
    let mut k: usize = first;
    assert(ds.take(0) =~= Seq::<Seq<char>>::empty());
    while k < spans.len()
        invariant
            cs@ == content@,
            ls == lines(cs@),
            ds == data_lines(ls),
            spans_locate(cs@, spans@, ls),
            pattern@ == NET_DEV_LINE@,
            first <= k <= spans@.len(),
            spans@.len() <= 2 ==> first == spans@.len(),
            spans@.len() > 2 ==> first == 2,
            m.map() == interface_map(ds.take(k - first)),
            m.pairs() == interface_pairs(ds.take(k - first)),
        decreases spans.len() - k,
    {
        let (a, b) = spans[k];
        let line = to_string(&cs.as_slice()[a..b]);
        assert(line@ == ds[k - first]);
        assert(ds.take(k - first + 1).drop_last() == ds.take(k - first));
        assert(ds.take(k - first + 1).last() == ds[k - first]);
        match captures(&pattern, line.as_str()) {
            Some(groups) => {
                match group_at(&groups, 1) {
                    Some(name) => {
                        let name_chars = to_chars(name.as_str());
                        let (x, y) = trim_span(name_chars.as_slice());
                        let iface = to_string(&name_chars.as_slice()[x..y]);
                        let rx = count_of(group_at(&groups, 2));
                        let tx = count_of(group_at(&groups, 3));
                        m.insert(iface, (rx, tx));
                    },
                    None => {},
                }
            },
            None => {},
        }
        k = k + 1;
    }
    assert(ds.take(ds.len() as int) == ds);
    m
}

/// Every line that matches the interface pattern has its name group.
pub open spec fn names_always_captured(ls: Seq<Seq<char>>) -> bool {
    forall|i: int|
        0 <= i < ls.len() ==> match regex_captures(NET_DEV_LINE@, #[trigger] ls[i]) {
            Some(g) => group(g, 1).is_some(),
            None => true,
        }
}

/// No two matching lines name the same interface (names trimmed).
pub open spec fn matched_names_distinct(ls: Seq<Seq<char>>) -> bool {
    forall|i: int, j: int|
        #![trigger interface_entry(ls[i]), interface_entry(ls[j])]
        0 <= i < j < ls.len() && interface_entry(ls[i]).is_some() && interface_entry(
            ls[j],
        ).is_some() ==> interface_entry(ls[i]).unwrap().0 != interface_entry(ls[j]).unwrap().0
}

/// Received and transmitted bytes summed over pairs, without overflow.
pub open spec fn pair_sums(ps: Seq<(Seq<char>, (u64, u64))>) -> (u64, u64)
    decreases ps.len(),
{
    if ps.len() == 0 {
        (0, 0)
    } else {
        let (rx, tx) = pair_sums(ps.drop_last());
        (rx.saturating_add(ps.last().1.0), tx.saturating_add(ps.last().1.1))
    }
}

proof fn lemma_totals_are_pair_sums(ls: Seq<Seq<char>>)
    requires
        names_always_captured(ls),
        matched_names_distinct(ls),
    ensures
        net_totals(ls) == pair_sums(interface_pairs(ls)),
        labels_distinct(interface_pairs(ls)),
        map_of(interface_pairs(ls)) == interface_map(ls),
        forall|k: int|
            0 <= k < interface_pairs(ls).len() ==> exists|i: int|
                0 <= i < ls.len() && interface_entry(ls[i]) == Some(
                    #[trigger] interface_pairs(ls)[k],
                ),
    decreases ls.len(),
{
    if ls.len() > 0 {
        let front = ls.drop_last();
        let last = ls.len() - 1;
        assert(names_always_captured(front)) by {
            assert forall|i: int| 0 <= i < front.len() implies match regex_captures(
                NET_DEV_LINE@,
                #[trigger] front[i],
            ) {
                Some(g) => group(g, 1).is_some(),
                None => true,
            } by {
                assert(front[i] == ls[i]);
            }
        }
        assert(matched_names_distinct(front)) by {
            assert forall|i: int, j: int|
                #![trigger interface_entry(front[i]), interface_entry(front[j])]
                0 <= i < j < front.len() && interface_entry(front[i]).is_some() && interface_entry(
                    front[j],
                ).is_some() implies interface_entry(front[i]).unwrap().0 != interface_entry(
                front[j],
            ).unwrap().0 by {
                assert(front[i] == ls[i] && front[j] == ls[j]);
                assert(interface_entry(ls[i]).is_some() && interface_entry(ls[j]).is_some());
            }
        }
        lemma_totals_are_pair_sums(front);
        let p = interface_pairs(front);
        let l = ls.last();
        assert(l == ls[last]);
        match interface_entry(l) {
            Some(e) => {
                lemma_label_index(p, e.0);
                assert forall|k: int| 0 <= k < p.len() implies #[trigger] p[k].0 != e.0 by {
                    let i = choose|i: int| 0 <= i < front.len() && interface_entry(front[i]) == Some(
                        p[k],
                    );
                    assert(front[i] == ls[i]);
                    assert(interface_entry(ls[i]).is_some() && interface_entry(ls[last]).is_some());
                }
                assert(label_index(p, e.0).is_none());
                let q = p.push(e);
                assert(interface_pairs(ls) == q);
                assert(q.drop_last() == p);
                assert(labels_distinct(q)) by {
                    assert forall|a: int, b: int| 0 <= a < b < q.len() implies (
                    #[trigger] q[a]).0 != (#[trigger] q[b]).0 by {
                        if b < p.len() {
                            assert(q[a] == p[a] && q[b] == p[b]);
                        } else {
                            assert(q[a] == p[a]);
                        }
                    }
                }
                assert forall|k: int| 0 <= k < q.len() implies exists|i: int|
                    0 <= i < ls.len() && interface_entry(ls[i]) == Some(#[trigger] q[k]) by {
                    if k < p.len() {
                        assert(q[k] == p[k]);
                        let i = choose|i: int| 0 <= i < front.len() && interface_entry(front[i])
                            == Some(p[k]);
                        assert(front[i] == ls[i]);
                    } else {
                        assert(interface_entry(ls[last]) == Some(q[k]));
                    }
                }
            },
            None => {
                assert(regex_captures(NET_DEV_LINE@, ls[last]).is_none());
                assert forall|k: int| 0 <= k < p.len() implies exists|i: int|
                    0 <= i < ls.len() && interface_entry(ls[i]) == Some(#[trigger] p[k]) by {
                    let i = choose|i: int| 0 <= i < front.len() && interface_entry(front[i]) == Some(
                        p[k],
                    );
                    assert(front[i] == ls[i]);
                }
            },
        }
    }
}

/// Where the interface names of the matching lines are distinct and the name
/// group takes part in every match, the totals are the sums over the
/// per-interface pairs, which hold each entry of the per-interface map once;
/// with at most two lines (the headers) the totals are zero.
pub proof fn law_totals_are_interface_sums(content: Seq<char>)
    requires
        names_always_captured(data_lines(lines(content))),
        matched_names_distinct(data_lines(lines(content))),
    ensures
        net_totals(data_lines(lines(content))) == pair_sums(
            interface_pairs(data_lines(lines(content))),
        ),
        labels_distinct(interface_pairs(data_lines(lines(content)))),
        map_of(interface_pairs(data_lines(lines(content)))) == interface_map(
            data_lines(lines(content)),
        ),
        lines(content).len() <= 2 ==> net_totals(data_lines(lines(content))) == (0u64, 0u64),
{
    lemma_totals_are_pair_sums(data_lines(lines(content)));
}

/// One interface's growth in received and transmitted bytes.
#[derive(Debug)]
pub struct InterfaceDelta {
    pub name: String,
    pub rx: u64,
    pub tx: u64,
}

/// For each interface of the current sample, in its order, that the previous
/// sample also has: the growth of both counters, floored at 0.
pub open spec fn interface_deltas_spec(
    prev: Map<Seq<char>, (u64, u64)>,
    curr: Seq<(Seq<char>, (u64, u64))>,
) -> Seq<(Seq<char>, u64, u64)>
    decreases curr.len(),
{
    if curr.len() == 0 {
        Seq::empty()
    } else {
        let r = interface_deltas_spec(prev, curr.drop_last());
        let (name, (rx, tx)) = curr.last();
        if prev.contains_key(name) {
            r.push((name, rx.saturating_sub(prev[name].0), tx.saturating_sub(prev[name].1)))
        } else {
            r
        }
    }
}

pub open spec fn delta_triples(ds: Seq<InterfaceDelta>) -> Seq<(Seq<char>, u64, u64)> {
    ds.map_values(|d: InterfaceDelta| (d.name@, d.rx, d.tx))
}

pub fn interface_deltas(prev: &LabelMap<(u64, u64)>, curr: &LabelMap<(u64, u64)>) -> (r: Vec<
    InterfaceDelta,
>)
    ensures
        delta_triples(r@) == interface_deltas_spec(prev.map(), curr.pairs()),
{
    let n = curr.len();
    let ghost cp = curr.pairs();
    let mut r: Vec<InterfaceDelta> = Vec::new();
    let mut k: usize = 0;
    assert(cp.take(0) =~= Seq::<(Seq<char>, (u64, u64))>::empty());
    assert(delta_triples(r@) =~= Seq::<(Seq<char>, u64, u64)>::empty());
    while k < n
        invariant
            n == cp.len(),
            cp == curr.pairs(),
            k <= n,
            delta_triples(r@) == interface_deltas_spec(prev.map(), cp.take(k as int)),
        decreases n - k,
    {
        let (name, counters) = curr.entry(k);
        assert(cp.take(k + 1).drop_last() == cp.take(k as int));
        assert(cp.take(k + 1).last() == cp[k as int]);
        match prev.get(name.as_str()) {
            Some(before) => {
                let d = InterfaceDelta {
                    name: name.clone(),
                    rx: counters.0.saturating_sub(before.0),
                    tx: counters.1.saturating_sub(before.1),
                };
                let ghost old_r = r@;
                r.push(d);
                assert(delta_triples(r@) =~= delta_triples(old_r).push(
                    (name@, counters.0.saturating_sub(before.0), counters.1.saturating_sub(before.1)),
                ));
            },
            None => {},
        }
        k = k + 1;
    }
    assert(cp.take(n as int) == cp);
    r
}

/// Counters measured against themselves show every interface, with no
/// growth.
pub proof fn law_same_interfaces_no_growth(pairs: Seq<(Seq<char>, (u64, u64))>)
    requires
        labels_distinct(pairs),
    ensures
        interface_deltas_spec(map_of(pairs), pairs).len() == pairs.len(),
        forall|i: int|
            0 <= i < pairs.len() ==> #[trigger] interface_deltas_spec(map_of(pairs), pairs)[i] == (
                pairs[i].0,
                0u64,
                0u64,
            ),
{
    lemma_map_of(pairs);
    assert forall|i: int| 0 <= i < pairs.len() implies #[trigger] map_of(pairs).contains_key(
        pairs[i].0,
    ) && map_of(pairs)[pairs[i].0] == pairs[i].1 by {
        assert(map_of(pairs).contains_key(pairs[i].0));
    }
    lemma_deltas_against_superset(map_of(pairs), pairs);
}

proof fn lemma_deltas_against_superset(
    prev: Map<Seq<char>, (u64, u64)>,
    pairs: Seq<(Seq<char>, (u64, u64))>,
)
    requires
        forall|i: int|
            0 <= i < pairs.len() ==> #[trigger] prev.contains_key(pairs[i].0) && prev[pairs[i].0]
                == pairs[i].1,
    ensures
        interface_deltas_spec(prev, pairs).len() == pairs.len(),
        forall|i: int|
            0 <= i < pairs.len() ==> #[trigger] interface_deltas_spec(prev, pairs)[i] == (
                pairs[i].0,
                0u64,
                0u64,
            ),
    decreases pairs.len(),
{
    if pairs.len() > 0 {
        let front = pairs.drop_last();
        assert forall|i: int| 0 <= i < front.len() implies #[trigger] prev.contains_key(front[i].0)
            && prev[front[i].0] == front[i].1 by {
            assert(front[i] == pairs[i]);
        }
        lemma_deltas_against_superset(prev, front);
        assert(prev.contains_key(pairs[pairs.len() - 1].0));
        assert forall|i: int| 0 <= i < pairs.len() implies #[trigger] interface_deltas_spec(
            prev,
            pairs,
        )[i] == (pairs[i].0, 0u64, 0u64) by {
            if i < pairs.len() - 1 {
                assert(front[i] == pairs[i]);
            }
        }
    }
}

/// The all-interface totals of the last sample, from which the next
/// traffic rate is measured.
pub struct NetTotalsTracker {
    prev: Option<(u64, u64)>,
}

impl NetTotalsTracker {
    pub closed spec fn last(self) -> Option<(u64, u64)> {
        self.prev
    }

    pub fn new() -> (t: Self)
        ensures
            t.last().is_none(),
    {
        NetTotalsTracker { prev: None }
    }

    /// Records the totals `(rx, tx)` as the last sample and returns their
    /// growth since the previous one, each floored at 0; `None` on the first
    /// sample.
    pub fn observe(&mut self, rx: u64, tx: u64) -> (r: Option<(u64, u64)>)
        ensures
            final(self).last() == Some((rx, tx)),
            r == match old(self).last() {
                Some(prev) => Some((rx.saturating_sub(prev.0), tx.saturating_sub(prev.1))),
                None => None,
            },
    {
        let prev = self.prev;
        self.prev = Some((rx, tx));
        match prev {
            Some((prev_rx, prev_tx)) => Some((rx.saturating_sub(prev_rx), tx.saturating_sub(prev_tx))),
            None => None,
        }
    }
}

/// The per-interface counters of the last sample, from which the next
/// growth is measured.
pub struct InterfaceTracker {
    prev: Option<LabelMap<(u64, u64)>>,
}

impl InterfaceTracker {
    pub closed spec fn last(self) -> Option<Map<Seq<char>, (u64, u64)>> {
        match self.prev {
            Some(m) => Some(m.map()),
            None => None,
        }
    }

    pub fn new() -> (t: Self)
        ensures
            t.last().is_none(),
    {
        InterfaceTracker { prev: None }
    }

    /// Records `curr` as the last sample and returns each interface's growth
    /// since the previous one, `None` on the first sample.
    pub fn observe(&mut self, curr: LabelMap<(u64, u64)>) -> (r: Option<Vec<InterfaceDelta>>)
        ensures
            final(self).last() == Some(curr.map()),
            match old(self).last() {
                Some(prev) => r.is_some() && delta_triples(r.unwrap()@) == interface_deltas_spec(
                    prev,
                    curr.pairs(),
                ),
                None => r.is_none(),
            },
    {
        let r = match &self.prev {
            Some(p) => Some(interface_deltas(p, &curr)),
            None => None,
        };
        self.prev = Some(curr);
        r
    }
}

} // verus!
