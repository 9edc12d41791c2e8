//! Small readings of kernel text files: a number, the CPU model, the uptime,
//! the load averages and the host name, each computed from the text read.
use vstd::prelude::*;
use crate::text::{
    find_char, has_prefix, index_of, line_spans, lines, parse_i64, parse_i64_spec, spans_locate,
    starts_with, to_chars, to_string, trim, trim_span, word_spans, words,
};

verus! {

/// The number a file holds: its text trimmed and parsed as an `i64`, or 0
/// where that fails.
pub open spec fn number_or_zero(content: Seq<char>) -> i64 {
    match parse_i64_spec(trim(content)) {
        Some(v) => v,
        None => 0,
    }
}

/// The integer that a sysfs file's text holds, 0 where it holds none.
pub fn read_i64(content: &str) -> (r: i64)
    ensures
        r == number_or_zero(content@),
{
    let cs = to_chars(content);
    let (a, b) = trim_span(cs.as_slice());
    match parse_i64(&cs.as_slice()[a..b]) {
        Some(v) => v,
        None => 0,
    }
}

/// The trimmed text of a file that holds a number, `None` where it is blank.
pub fn number_text(content: &str) -> (r: Option<String>)
    ensures
        match r {
            Some(t) => t@ == trim(content@) && t@.len() > 0,
            None => trim(content@).len() == 0,
        },
{
    let cs = to_chars(content);
    let (a, b) = trim_span(cs.as_slice());
    if a == b {
        None
    } else {
        Some(to_string(&cs.as_slice()[a..b]))
    }
}

/// The first of `paths` whose flag in `present` is set.
pub open spec fn first_present(paths: Seq<Seq<char>>, present: Seq<bool>) -> Option<Seq<char>>
    decreases paths.len(),
{
    if paths.len() == 0 || present.len() == 0 {
        None
    } else if present[0] {
        Some(paths[0])
    } else {
        first_present(paths.drop_first(), present.drop_first())
    }
}

/// The first of `paths` that exists, given for each path whether it does.
pub fn first_existing_path(paths: &[&str], present: &[bool]) -> (r: Option<String>)
    requires
        paths@.len() == present@.len(),
    ensures
        match r {
            Some(p) => first_present(paths@.map_values(|p: &str| p@), present@) == Some(p@),
            None => first_present(paths@.map_values(|p: &str| p@), present@).is_none(),
        },
{
    let ghost ps = paths@.map_values(|p: &str| p@);
    let mut i: usize = 0;
    assert(ps.skip(0) == ps && present@.skip(0) == present@);
    while i < paths.len()
        invariant
            paths@.len() == present@.len(),
            ps == paths@.map_values(|p: &str| p@),
            i <= paths@.len(),
            first_present(ps, present@) == first_present(ps.skip(i as int), present@.skip(i as int)),
        decreases paths.len() - i,
    {
        assert(ps.skip(i as int)[0] == paths@[i as int]@);
        if present[i] {
            return Some(String::from_str(paths[i]));
        }
        assert(ps.skip(i as int).drop_first() == ps.skip(i + 1));
        assert(present@.skip(i as int).drop_first() == present@.skip(i + 1));
        i = i + 1;
    }
    None
}

/// The first line of `ls` that starts with `p`.
pub open spec fn first_line_with_prefix(ls: Seq<Seq<char>>, p: Seq<char>) -> Option<Seq<char>>
    decreases ls.len(),
{
    if ls.len() == 0 {
        None
    } else if has_prefix(ls[0], p) {
        Some(ls[0])
    } else {
        first_line_with_prefix(ls.drop_first(), p)
    }
}

/// What `split(sep).nth(1)` gives: the text between the first `sep` and the
/// next one (or the end), where there is a first one.
pub open spec fn second_piece(line: Seq<char>, sep: char) -> Option<Seq<char>> {
    match index_of(line, sep) {
        Some(i) => {
            let rest = line.skip(i + 1);
            match index_of(rest, sep) {
                Some(j) => Some(rest.take(j)),
                None => Some(rest),
            }
        },
        None => None,
    }
}

/// The CPU model that `/proc/cpuinfo` text names: the value of the first
/// `model name` line, trimmed, or `Unknown`.
pub open spec fn cpu_model(content: Seq<char>) -> Seq<char> {
    match first_line_with_prefix(lines(content), "model name"@) {
        Some(line) => match second_piece(line, ':') {
            Some(value) => trim(value),
            None => "Unknown"@,
        },
        None => "Unknown"@,
    }
}

fn first_line_starting(cs: &[char], spans: &Vec<(usize, usize)>, p: &[char]) -> (r: Option<
    (usize, usize),
>)
    requires
        spans_locate(cs@, spans@, lines(cs@)),
    ensures
        match first_line_with_prefix(lines(cs@), p@) {
            Some(line) => r.is_some() && r.unwrap().0 <= r.unwrap().1 <= cs@.len() && cs@.subrange(
                r.unwrap().0 as int,
                r.unwrap().1 as int,
            ) == line,
            None => r.is_none(),
        },
{
    let ghost ls = lines(cs@);
    let mut k: usize = 0;
    assert(ls.skip(0) == ls);
    while k < spans.len()
        invariant
            ls == lines(cs@),
            spans_locate(cs@, spans@, ls),
            k <= spans@.len(),
            first_line_with_prefix(ls, p@) == first_line_with_prefix(ls.skip(k as int), p@),
        decreases spans.len() - k,
    {
        let (a, b) = spans[k];
        assert(cs@.subrange(a as int, b as int) == ls[k as int]);
        assert(ls.skip(k as int)[0] == ls[k as int]);
        if starts_with(&cs[a..b], p) {
            return Some((a, b));
        }
        assert(ls.skip(k as int).drop_first() == ls.skip(k + 1));
        k = k + 1;
    }
    None
}

/// The CPU model named by `/proc/cpuinfo` text.
pub fn get_cpu_model(content: &str) -> (r: String)
    ensures
        r@ == cpu_model(content@),
{
    let cs = to_chars(content);
    let spans = line_spans(cs.as_slice());
    let key = to_chars("model name");
    match first_line_starting(cs.as_slice(), &spans, key.as_slice()) {
        Some((a, b)) => {
            let line = &cs.as_slice()[a..b];
            match find_char(line, ':') {
                Some(i) => {
                    let rest = &line[i + 1..line.len()];
                    assert(rest@ == line@.skip(i + 1));
                    let value = match find_char(rest, ':') {
                        Some(j) => {
                            assert(rest@.subrange(0, j as int) == rest@.take(j as int));
                            &rest[0..j]
                        },
                        None => rest,
                    };
                    assert(second_piece(line@, ':') == Some(value@));
                    let (x, y) = trim_span(value);
                    to_string(&value[x..y])
                },
                None => String::from_str("Unknown"),
            }
        },
        None => String::from_str("Unknown"),
    }
}

/// The uptime field of `/proc/uptime` text: its first word, or `0`.
pub open spec fn uptime_text(content: Seq<char>) -> Seq<char> {
    if words(content).len() > 0 {
        words(content)[0]
    } else {
        "0"@
    }
}

/// The seconds since boot that `/proc/uptime` text gives, as written there.
pub fn get_uptime(content: &str) -> (r: String)
    ensures
        r@ == uptime_text(content@),
{
    let cs = to_chars(content);
    let ws = word_spans(cs.as_slice());
    if ws.len() > 0 {
        let (a, b) = ws[0];
        to_string(&cs.as_slice()[a..b])
    } else {
        String::from_str("0")
    }
}

/// The value a sysfs attribute file holds: its text, trimmed.
pub fn attribute_text(content: &str) -> (r: String)
    ensures
        r@ == trim(content@),
{
    let cs = to_chars(content);
    let (a, b) = trim_span(cs.as_slice());
    to_string(&cs.as_slice()[a..b])
}

/// The load averages line of `/proc/loadavg` text, trimmed.
pub fn get_loadavg(content: &str) -> (r: String)
    ensures
        r@ == trim(content@),
{
    attribute_text(content)
}

/// The host name: the kernel's, trimmed, where it is not blank; else the
/// `HOSTNAME` variable where it is set and not empty; else `localhost`.
pub open spec fn host_name(kernel: Option<Seq<char>>, variable: Option<Seq<char>>) -> Seq<char> {
    if kernel.is_some() && trim(kernel.unwrap()).len() > 0 {
        trim(kernel.unwrap())
    } else if variable.is_some() && variable.unwrap().len() > 0 {
        variable.unwrap()
    } else {
        "localhost"@
    }
}

/// The host name to report, from the text of `/proc/sys/kernel/hostname` and
/// the `HOSTNAME` environment variable, each where it could be read.
pub fn choose_hostname(kernel: Option<&str>, variable: Option<&str>) -> (r: String)
    ensures
        r@ == host_name(
            match kernel {
                Some(k) => Some(k@),
                None => None,
            },
            match variable {
                Some(v) => Some(v@),
                None => None,
            },
        ),
{
    if let Some(k) = kernel {
        let cs = to_chars(k);
        let (a, b) = trim_span(cs.as_slice());
        if a < b {
            return to_string(&cs.as_slice()[a..b]);
        }
    }
    if let Some(v) = variable {
        if !v.is_empty() {
            return String::from_str(v);
        }
    }
    String::from_str("localhost")
}

} // verus!
