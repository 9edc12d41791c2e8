//! Memory and swap sizes from the text of `/proc/meminfo`.
use vstd::prelude::*;
use crate::label_map::LabelMap;
use crate::text::{
    find_char, index_of, line_spans, lines, parse_u64, parse_u64_spec, spans_locate, to_string,
    to_chars, trim, trim_span, word_spans, words,
};

verus! {

/// `kib * 1024`, or `u64::MAX` where that does not fit.
pub open spec fn kib_to_bytes(kib: u64) -> u64 {
    if kib * 1024 > u64::MAX {
        u64::MAX
    } else {
        (kib * 1024) as u64
    }
}

/// The entry of a `/proc/meminfo` line: the trimmed text before the first
/// `:`, and the first word after it read as KiB (0 where it does not parse),
/// in bytes. Lines without `:` give none.
pub open spec fn meminfo_entry(line: Seq<char>) -> Option<(Seq<char>, u64)> {
    match index_of(line, ':') {
        Some(i) => {
            let ws = words(line.skip(i + 1));
            let kib: u64 = if ws.len() > 0 {
                match parse_u64_spec(ws[0]) {
                    Some(v) => v,
                    None => 0,
                }
            } else {
                0
            };
            Some((trim(line.take(i)), kib_to_bytes(kib)))
        },
        None => None,
    }
}

/// The entries of lines taken in order, a later key replacing an earlier one.
pub open spec fn meminfo_map(ls: Seq<Seq<char>>) -> Map<Seq<char>, u64>
    decreases ls.len(),
{
    if ls.len() == 0 {
        Map::empty()
    } else {
        let m = meminfo_map(ls.drop_last());
        match meminfo_entry(ls.last()) {
            Some(e) => m.insert(e.0, e.1),
            None => m,
        }
    }
}

pub open spec fn value_or_zero(m: Map<Seq<char>, u64>, key: Seq<char>) -> u64 {
    if m.contains_key(key) {
        m[key]
    } else {
        0
    }
}

/// Memory and swap sizes in bytes.
#[derive(Clone, Copy, Debug, PartialEq, Eq, Structural)]
pub struct MemCounters {
    pub total: u64,
    pub avail: u64,
    pub used: u64,
    pub swap_total: u64,
    pub swap_free: u64,
    pub swap_used: u64,
}

/// The sizes `/proc/meminfo` text gives: total memory; available memory
/// (`MemAvailable`, else `MemFree`, else 0); used memory as total less
/// available, floored at 0; and the same for swap.
pub open spec fn mem_counters(content: Seq<char>) -> MemCounters {
    let m = meminfo_map(lines(content));
    let total = value_or_zero(m, "MemTotal"@);
    let avail = if m.contains_key("MemAvailable"@) {
        m["MemAvailable"@]
    } else {
        value_or_zero(m, "MemFree"@)
    };
    let swap_total = value_or_zero(m, "SwapTotal"@);
    let swap_free = value_or_zero(m, "SwapFree"@);
    MemCounters {
        total,
        avail,
        used: total.saturating_sub(avail),
        swap_total,
        swap_free,
        swap_used: swap_total.saturating_sub(swap_free),
    }
}

fn meminfo_entry_of_line(line: &[char]) -> (r: Option<(String, u64)>)
    ensures
        match meminfo_entry(line@) {
            Some(e) => r.is_some() && r.unwrap().0@ == e.0 && r.unwrap().1 == e.1,
            None => r.is_none(),
        },
{
    match find_char(line, ':') {
        Some(i) => {
            let n = line.len();
            let key = &line[0..i];
            let rest = &line[i + 1..n];
            assert(key@ == line@.take(i as int));
            assert(rest@ == line@.skip(i + 1));
            let ws = word_spans(rest);
            let kib: u64 = if ws.len() > 0 {
                let (a, b) = ws[0];
                match parse_u64(&rest[a..b]) {
                    Some(v) => v,
                    None => 0,
                }
            } else {
                0
            };
            let bytes = match kib.checked_mul(1024) {
                Some(v) => v,
                None => u64::MAX,
            };
            let (x, y) = trim_span(key);
            Some((to_string(&key[x..y]), bytes))
        },
        None => None,
    }
}

fn lookup(m: &LabelMap<u64>, key: &str) -> (r: Option<u64>)
    ensures
        match r {
            Some(v) => m.map().contains_key(key@) && v == m.map()[key@],
            None => !m.map().contains_key(key@),
        },
{
    match m.get(key) {
        Some(v) => Some(*v),
        None => None,
    }
}

/// Memory and swap sizes from `/proc/meminfo` text; used never exceeds total.
pub fn parse_meminfo(content: &str) -> (r: MemCounters)
    ensures
        r == mem_counters(content@),
        r.used <= r.total,
        r.swap_used <= r.swap_total,
{
    let cs = to_chars(content);
    let spans = line_spans(cs.as_slice());
    let ghost ls = lines(cs@);
    let mut m: LabelMap<u64> = LabelMap::new();
    let mut k: usize = 0;
    assert(ls.take(0) =~= Seq::<Seq<char>>::empty());
    while k < spans.len()
        invariant
            cs@ == content@,
            ls == lines(cs@),
            spans_locate(cs@, spans@, ls),
            k <= spans@.len(),
            m.map() == meminfo_map(ls.take(k as int)),
        decreases spans.len() - k,
    {
        let (a, b) = spans[k];
        let line = &cs.as_slice()[a..b];
        assert(line@ == ls[k as int]);
        assert(ls.take(k + 1).drop_last() == ls.take(k as int));
        assert(ls.take(k + 1).last() == ls[k as int]);
        match meminfo_entry_of_line(line) {
            Some((key, bytes)) => {
                m.insert(key, bytes);
            },
            None => {},
        }
        k = k + 1;
    }
    assert(ls.take(ls.len() as int) == ls);
    let total = lookup(&m, "MemTotal").unwrap_or(0);
    let avail = match lookup(&m, "MemAvailable") {
        Some(v) => v,
        None => lookup(&m, "MemFree").unwrap_or(0),
    };
    let swap_total = lookup(&m, "SwapTotal").unwrap_or(0);
    let swap_free = lookup(&m, "SwapFree").unwrap_or(0);
    MemCounters {
        total,
        avail,
        used: total.saturating_sub(avail),
        swap_total,
        swap_free,
        swap_used: swap_total.saturating_sub(swap_free),
    }
}

} // verus!
