//! GPU readings: the activity metric and where it came from, the fields of
//! `nvidia-smi` CSV output, and which DRM card is an Intel display device.
use vstd::prelude::*;
use crate::text::{
    chars_equal, find_char, has_prefix, index_of, line_spans, lines, parse_u64, parse_u64_spec,
    split, split_spans, starts_with, to_chars, to_string, trim, trim_span,
};

verus! {

/// A GPU's utilization in percent, with the method it was obtained by.
#[derive(Debug, Clone, Copy, PartialEq, Eq)]
pub struct GpuActivityMetric {
    pub utilization: u32,
    pub source: &'static str,
    pub detail: &'static str,
}

impl GpuActivityMetric {
    /// Utilization measured as the share of time not spent in RC6 idle.
    pub fn rc6_residency(utilization: u32) -> (m: Self)
        ensures
            m.utilization == utilization,
            m.source@ == "rc6-residency"@,
            m.detail@ == "Actual active time from RC6 idle residency"@,
    {
        GpuActivityMetric {
            utilization,
            source: "rc6-residency",
            detail: "Actual active time from RC6 idle residency",
        }
    }

    /// Utilization estimated from where the clock stands in its range.
    pub fn frequency_fallback(utilization: u32) -> (m: Self)
        ensures
            m.utilization == utilization,
            m.source@ == "frequency-fallback"@,
            m.detail@ == "Estimated from graphics clock range"@,
    {
        GpuActivityMetric {
            utilization,
            source: "frequency-fallback",
            detail: "Estimated from graphics clock range",
        }
    }

    /// No utilization could be measured or estimated.
    pub fn unavailable() -> (m: Self)
        ensures
            m.utilization == 0,
            m.source@ == "unavailable"@,
            m.detail@ == "Usage telemetry unavailable"@,
    {
        GpuActivityMetric {
            utilization: 0,
            source: "unavailable",
            detail: "Usage telemetry unavailable",
        }
    }
}

/// The fields of the first line of `nvidia-smi` CSV output, the numbers of
/// memory in use and in total already read (0 and 1 where they do not parse),
/// the others left as text.
#[derive(Debug)]
pub struct NvidiaReading {
    pub name: String,
    pub utilization: String,
    pub memory: String,
    pub mem_used: u64,
    pub mem_total: u64,
    pub temp: String,
}

pub open spec fn parsed_or(text: Seq<char>, default: u64) -> u64 {
    match parse_u64_spec(text) {
        Some(v) => v,
        None => default,
    }
}

/// The first line split at commas, each field trimmed; `None` where there is
/// no line or it has fewer than six fields. Fields are utilization, memory
/// utilization, memory used, memory total, temperature and name.
pub open spec fn nvidia_fields(stdout: Seq<char>) -> Option<
    (Seq<char>, Seq<char>, Seq<char>, u64, u64, Seq<char>),
> {
    let ls = lines(stdout);
    if ls.len() == 0 {
        None
    } else {
        let parts = split(ls[0], ',');
        if parts.len() < 6 {
            None
        } else {
            Some(
                (
                    trim(parts[5]),
                    trim(parts[0]),
                    trim(parts[1]),
                    parsed_or(trim(parts[2]), 0),
                    parsed_or(trim(parts[3]), 1),
                    trim(parts[4]),
                ),
            )
        }
    }
}

fn trimmed_field(line: &[char], parts: &Vec<(usize, usize)>, k: usize) -> (r: Vec<char>)
    requires
        k < parts@.len(),
        parts@[k as int].0 <= parts@[k as int].1 <= line@.len(),
    ensures
        r@ == trim(line@.subrange(parts@[k as int].0 as int, parts@[k as int].1 as int)),
{
    let (a, b) = parts[k];
    let field = &line[a..b];
    let (x, y) = trim_span(field);
    let mut r: Vec<char> = Vec::new();
    let mut i = x;
    while i < y
        invariant
            x <= i <= y <= field@.len(),
            r@ == field@.subrange(x as int, i as int),
        decreases y - i,
    {
        r.push(field[i]);
        assert(field@.subrange(x as int, i + 1) == field@.subrange(x as int, i as int).push(
            field@[i as int],
        ));
        i = i + 1;
    }
    r
}

/// The reading of the first GPU that `nvidia-smi` reports, from its output
/// with the query fields in the order above.
pub fn parse_nvidia_smi(stdout: &str) -> (r: Option<NvidiaReading>)
    ensures
        match nvidia_fields(stdout@) {
            Some(f) => r.is_some() && r.unwrap().name@ == f.0 && r.unwrap().utilization@ == f.1
                && r.unwrap().memory@ == f.2 && r.unwrap().mem_used == f.3 && r.unwrap().mem_total
                == f.4 && r.unwrap().temp@ == f.5,
            None => r.is_none(),
        },
{
    let cs = to_chars(stdout);
    let ls = line_spans(cs.as_slice());
    if ls.len() == 0 {
        return None;
    }
    let (a, b) = ls[0];
    let line = &cs.as_slice()[a..b];
    let parts = split_spans(line, ',');
    if parts.len() < 6 {
        return None;
    }
    let name = trimmed_field(line, &parts, 5);
    let util = trimmed_field(line, &parts, 0);
    let memory = trimmed_field(line, &parts, 1);
    let used = trimmed_field(line, &parts, 2);
    let total = trimmed_field(line, &parts, 3);
    let temp = trimmed_field(line, &parts, 4);
    Some(
        NvidiaReading {
            name: to_string(name.as_slice()),
            utilization: to_string(util.as_slice()),
            memory: to_string(memory.as_slice()),
            mem_used: match parse_u64(used.as_slice()) {
                Some(v) => v,
                None => 0,
            },
            mem_total: match parse_u64(total.as_slice()) {
                Some(v) => v,
                None => 1,
            },
            temp: to_string(temp.as_slice()),
        },
    )
}

/// A DRM entry that is a card itself, not one of its connectors: its name
/// starts with `card` and has no `-`.
pub open spec fn is_card(name: Seq<char>) -> bool {
    has_prefix(name, "card"@) && index_of(name, '-').is_none()
}

pub fn is_card_entry(name: &str) -> (b: bool)
    ensures
        b == is_card(name@),
{
    let cs = to_chars(name);
    let card = to_chars("card");
    starts_with(cs.as_slice(), card.as_slice()) && find_char(cs.as_slice(), '-').is_none()
}

/// `char::to_ascii_lowercase`.
pub open spec fn ascii_lower(c: char) -> char {
    if 'A' <= c <= 'Z' {
        ((c as u32) + 32) as char
    } else {
        c
    }
}

/// `str::to_ascii_lowercase`.
pub open spec fn lowercase(s: Seq<char>) -> Seq<char> {
    s.map_values(|c: char| ascii_lower(c))
}

fn lowercase_trimmed(s: &str) -> (r: Vec<char>)
    ensures
        r@ == lowercase(trim(s@)),
{
    let cs = to_chars(s);
    let (a, b) = trim_span(cs.as_slice());
    let mut r: Vec<char> = Vec::new();
    let mut i = a;
    while i < b
        invariant
            cs@ == s@,
            a <= i <= b <= cs@.len(),
            r@ == lowercase(cs@.subrange(a as int, i as int)),
        decreases b - i,
    {
        let c = cs[i];
        let l = if 'A' <= c && c <= 'Z' {
            ((c as u8) + 32) as char
        } else {
            c
        };
        r.push(l);
        assert(lowercase(cs@.subrange(a as int, i + 1)) =~= lowercase(
            cs@.subrange(a as int, i as int),
        ).push(ascii_lower(c)));
        i = i + 1;
    }
    r
}

/// An Intel (vendor `0x8086`) display controller (class `0x03....`), from
/// the text of the card's `device/vendor` and `device/class` files.
pub open spec fn is_intel_display(vendor: Seq<char>, class: Seq<char>) -> bool {
    lowercase(trim(vendor)) == "0x8086"@ && has_prefix(lowercase(trim(class)), "0x03"@)
}

pub fn is_intel_display_device(vendor: &str, class: &str) -> (b: bool)
    ensures
        b == is_intel_display(vendor@, class@),
{
    let v = lowercase_trimmed(vendor);
    let c = lowercase_trimmed(class);
    let intel = to_chars("0x8086");
    let display = to_chars("0x03");
    chars_equal(v.as_slice(), intel.as_slice()) && starts_with(c.as_slice(), display.as_slice())
}

} // verus!
