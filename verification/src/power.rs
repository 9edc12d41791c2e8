//! Power readings: which sysfs values a power supply's draw is computed
//! from, the growth of RAPL energy counters, and a battery's time remaining.
use vstd::prelude::*;
use crate::text::{chars_equal, has_prefix, starts_with, to_chars, trim, trim_span};

verus! {

/// What a power supply's draw is computed from: its own power reading in
/// µW, or a voltage in µV times a current in µA.
#[derive(Clone, Copy, Debug, PartialEq, Eq, Structural)]
pub enum PowerSource {
    Direct(i64),
    Derived(i64, i64),
}

pub open spec fn abs(v: i64) -> int {
    if v < 0 {
        -v
    } else {
        v as int
    }
}

/// The first voltage reading that is positive, else 0.
pub open spec fn chosen_voltage(now: i64, max: i64, min: i64) -> i64 {
    if now > 0 {
        now
    } else if max > 0 {
        max
    } else if min > 0 {
        min
    } else {
        0
    }
}

/// The size of the first current reading that is not 0, else 0.
pub open spec fn chosen_current(now: i64, max: i64) -> int {
    if now != 0 {
        abs(now)
    } else {
        abs(max)
    }
}

/// A nonzero power reading is used as it is (its size); otherwise, where
/// derivation is allowed, the first positive voltage and the first nonzero
/// current, where both exist.
pub open spec fn power_source(
    power_now: i64,
    voltage_now: i64,
    voltage_max: i64,
    voltage_min: i64,
    current_now: i64,
    current_max: i64,
    allow_derived_power: bool,
) -> Option<PowerSource> {
    if power_now != 0 {
        Some(PowerSource::Direct(abs(power_now) as i64))
    } else if !allow_derived_power {
        None
    } else {
        let v = chosen_voltage(voltage_now, voltage_max, voltage_min);
        let c = chosen_current(current_now, current_max);
        if v > 0 && c > 0 {
            Some(PowerSource::Derived(v, c as i64))
        } else {
            None
        }
    }
}

/// The readings a power supply's draw in watts is computed from: `Direct(p)`
/// gives `p / 10^6`, `Derived(v, c)` gives `v * c / 10^12`.
pub fn power_supply_source(
    power_now: i64,
    voltage_now: i64,
    voltage_max: i64,
    voltage_min: i64,
    current_now: i64,
    current_max: i64,
    allow_derived_power: bool,
) -> (r: Option<PowerSource>)
    requires
        power_now != i64::MIN,
        power_now == 0 && allow_derived_power ==> current_now != i64::MIN && (current_now == 0
            ==> current_max != i64::MIN),
    ensures
        r == power_source(
            power_now,
            voltage_now,
            voltage_max,
            voltage_min,
            current_now,
            current_max,
            allow_derived_power,
        ),
        power_now != 0 ==> r == Some(PowerSource::Direct(abs(power_now) as i64)),
        power_now == 0 && !allow_derived_power ==> r.is_none(),
        power_now == 0 && (chosen_voltage(voltage_now, voltage_max, voltage_min) <= 0
            || chosen_current(current_now, current_max) == 0) ==> r.is_none(),
{
    let direct = if power_now < 0 {
        -power_now
    } else {
        power_now
    };
    if direct > 0 {
        return Some(PowerSource::Direct(direct));
    }
    if !allow_derived_power {
        return None;
    }
    let voltage = if voltage_now > 0 {
        voltage_now
    } else if voltage_max > 0 {
        voltage_max
    } else if voltage_min > 0 {
        voltage_min
    } else {
        0
    };
    let raw = if current_now != 0 {
        current_now
    } else {
        current_max
    };
    let current = if raw < 0 {
        -raw
    } else {
        raw
    };
    if voltage > 0 && current > 0 {
        Some(PowerSource::Derived(voltage, current))
    } else {
        None
    }
}

/// RAPL energy counters wrap at this value.
pub const RAPL_ENERGY_MAX: u64 = 0xFFFF_FFFFu64;

/// The energy used between two readings of a counter: the difference, or
/// across a wrap, what was left to the maximum plus the new reading (each
/// step floored and capped as `u64` saturating operations do).
pub open spec fn energy_delta_spec(current: u64, previous: u64) -> u64 {
    if current >= previous {
        (current - previous) as u64
    } else {
        RAPL_ENERGY_MAX.saturating_sub(previous).saturating_add(current)
    }
}

pub fn energy_delta(current: u64, previous: u64) -> (r: u64)
    ensures
        r == energy_delta_spec(current, previous),
{
    if current >= previous {
        current - previous
    } else {
        RAPL_ENERGY_MAX.saturating_sub(previous).saturating_add(current)
    }
}

/// Adding the energy used to the previous reading gives the new reading
/// back: exactly where the counter did not wrap, and plus the wrap value where
/// it did (readings within the counter's range).
pub proof fn law_energy_delta_recovers_reading(current: u64, previous: u64)
    requires
        current <= RAPL_ENERGY_MAX,
        previous <= RAPL_ENERGY_MAX,
    ensures
        current >= previous ==> previous + energy_delta_spec(current, previous) == current,
        current < previous ==> previous + energy_delta_spec(current, previous) == current
            + RAPL_ENERGY_MAX,
{
}

/// Between two readings of a counter that did not go down, the energy used is
/// their difference, whatever their size.
pub proof fn law_energy_delta_is_difference(current: u64, previous: u64)
    requires
        current >= previous,
    ensures
        energy_delta_spec(current, previous) == current - previous,
{
}

/// Across a wrap (the new reading below the old), the energy used is what
/// was left to the wrap value plus the new reading, capped at `u64::MAX`.
pub proof fn law_energy_delta_across_wrap(current: u64, previous: u64)
    requires
        current < previous,
    ensures
        energy_delta_spec(current, previous) as int == if previous >= RAPL_ENERGY_MAX {
            current as int
        } else if RAPL_ENERGY_MAX - previous + current > u64::MAX {
            u64::MAX as int
        } else {
            RAPL_ENERGY_MAX - previous + current
        },
{
}

/// Each RAPL counter's energy is the difference of its readings where it did
/// not go down; the reported total is the platform counter's where that grew,
/// else the package's.
pub proof fn law_rapl_deltas_are_differences(prev: RaplCounters, curr: RaplCounters)
    ensures
        curr.pkg >= prev.pkg ==> rapl_deltas(prev, curr).pkg == curr.pkg - prev.pkg,
        curr.core >= prev.core ==> rapl_deltas(prev, curr).core == curr.core - prev.core,
        curr.uncore >= prev.uncore ==> rapl_deltas(prev, curr).uncore == curr.uncore - prev.uncore,
        curr.total > prev.total ==> rapl_deltas(prev, curr).total == curr.total - prev.total,
        curr.total == prev.total ==> rapl_deltas(prev, curr).total == rapl_deltas(prev, curr).pkg,
{
}

/// A RAPL sample measured against itself shows no energy used.
pub proof fn law_same_rapl_sample_no_energy(c: RaplCounters)
    ensures
        rapl_deltas(c, c) == (RaplCounters { pkg: 0, core: 0, uncore: 0, total: 0 }),
{
}

/// An energy counter reading: a negative reading counts as 0.
pub fn energy_from_reading(reading: i64) -> (r: u64)
    ensures
        r == if reading < 0 {
            0
        } else {
            reading
        },
{
    if reading < 0 {
        0
    } else {
        reading as u64
    }
}

/// Readings, in µJ, of the package, core, uncore and platform energy counters.
#[derive(Clone, Copy, Debug, PartialEq, Eq, Structural)]
pub struct RaplCounters {
    pub pkg: u64,
    pub core: u64,
    pub uncore: u64,
    pub total: u64,
}

/// Energy used between two samples; `total` is the platform counter's where
/// it grew, else the package's.
pub open spec fn rapl_deltas(prev: RaplCounters, curr: RaplCounters) -> RaplCounters {
    let pkg = energy_delta_spec(curr.pkg, prev.pkg);
    let total = energy_delta_spec(curr.total, prev.total);
    RaplCounters {
        pkg,
        core: energy_delta_spec(curr.core, prev.core),
        uncore: energy_delta_spec(curr.uncore, prev.uncore),
        total: if total > 0 {
            total
        } else {
            pkg
        },
    }
}

/// The last RAPL sample, from which the next power draw is measured.
pub struct RaplTracker {
    prev: Option<RaplCounters>,
}

impl RaplTracker {
    pub closed spec fn last(self) -> Option<RaplCounters> {
        self.prev
    }

    pub fn new() -> (t: Self)
        ensures
            t.last() == None::<RaplCounters>,
    {
        RaplTracker { prev: None }
    }

    /// A sample whose package and platform counters both read 0 is ignored;
    /// any other becomes the last sample, and the energy used since the
    /// previous one is returned where there was one.
    pub fn observe(&mut self, curr: RaplCounters) -> (r: Option<RaplCounters>)
        ensures
            curr.pkg == 0 && curr.total == 0 ==> final(self).last() == old(self).last() && r.is_none(),
            !(curr.pkg == 0 && curr.total == 0) ==> final(self).last() == Some(curr) && r == match old(
                self,
            ).last() {
                Some(prev) => Some(rapl_deltas(prev, curr)),
                None => None,
            },
    {
        if curr.pkg == 0 && curr.total == 0 {
            return None;
        }
        let prev = self.prev;
        self.prev = Some(curr);
        match prev {
            Some(p) => {
                let pkg = energy_delta(curr.pkg, p.pkg);
                let total = energy_delta(curr.total, p.total);
                Some(
                    RaplCounters {
                        pkg,
                        core: energy_delta(curr.core, p.core),
                        uncore: energy_delta(curr.uncore, p.uncore),
                        total: if total > 0 {
                            total
                        } else {
                            pkg
                        },
                    },
                )
            },
            None => None,
        }
    }
}

/// Minutes left at the present current (µA, its size): for a discharging
/// battery the charge held, for a charging one the charge missing (floored
/// at 0), times 60 over the current, floored at 0, where the current exceeds
/// 1000; otherwise none.
pub open spec fn time_remaining(status: Seq<char>, current: i64, charge_now: i64, charge_full: i64) -> Option<i64> {
    if current > 1000 && status == "Discharging"@ {
        Some(quotient_floor_zero(charge_now * 60, current as int))
    } else if current > 1000 && status == "Charging"@ {
        let missing = if charge_full - charge_now > 0 {
            charge_full - charge_now
        } else {
            0
        };
        Some(quotient_floor_zero(missing * 60, current as int))
    } else {
        None
    }
}

/// `n / d` rounded toward zero, floored at 0, for positive `d`.
pub open spec fn quotient_floor_zero(n: int, d: int) -> i64 {
    if n <= 0 {
        0
    } else {
        (n / d) as i64
    }
}

/// A discharging battery's minutes left are the whole minutes its charge
/// lasts at the present current: `m * current <= charge * 60 < (m + 1) *
/// current`. A charging battery's are the whole minutes the missing charge
/// takes at that current. Either way they are at least 0, and at or below
/// 1000 µA nothing is reported.
pub proof fn law_time_remaining_is_whole_minutes(
    status: Seq<char>,
    current: i64,
    charge_now: i64,
    charge_full: i64,
)
    requires
        current > 1000 && status == "Discharging"@ ==> charge_now * 60 <= i64::MAX,
        current > 1000 && status == "Charging"@ ==> (charge_full - charge_now) * 60 <= i64::MAX,
    ensures
        current <= 1000 ==> time_remaining(status, current, charge_now, charge_full).is_none(),
        current > 1000 && status == "Discharging"@ ==> (time_remaining(
            status,
            current,
            charge_now,
            charge_full,
        ) matches Some(m) && m >= 0 && (charge_now > 0 ==> m * current <= charge_now * 60 < (m
            + 1) * current) && (charge_now <= 0 ==> m == 0)),
        current > 1000 && status == "Charging"@ ==> (time_remaining(
            status,
            current,
            charge_now,
            charge_full,
        ) matches Some(m) && m >= 0 && (charge_full > charge_now ==> m * current <= (charge_full
            - charge_now) * 60 < (m + 1) * current) && (charge_full <= charge_now ==> m == 0)),
        status != "Discharging"@ && status != "Charging"@ ==> time_remaining(
            status,
            current,
            charge_now,
            charge_full,
        ).is_none(),
{
    reveal_strlit("Discharging");
    reveal_strlit("Charging");
    assert("Charging"@.len() == 8 && "Discharging"@.len() == 11);
    assert("Charging"@ != "Discharging"@);
    if current > 1000 {
        let d = current as int;
        if charge_now > 0 && status == "Discharging"@ {
            lemma_whole_quotient(charge_now * 60, d);
        }
        if charge_full > charge_now && status == "Charging"@ {
            lemma_whole_quotient((charge_full - charge_now) * 60, d);
        }
    }
}

proof fn lemma_whole_quotient(n: int, d: int)
    requires
        n > 0,
        d > 0,
        n <= i64::MAX,
    ensures
        0 <= n / d <= n,
        (n / d) * d <= n < (n / d + 1) * d,
        ((n / d) as i64) as int == n / d,
{
    vstd::arithmetic::div_mod::lemma_fundamental_div_mod(n, d);
    vstd::arithmetic::div_mod::lemma_mod_bound(n, d);
    vstd::arithmetic::div_mod::lemma_div_pos_is_pos(n, d);
    vstd::arithmetic::div_mod::lemma_div_is_ordered_by_denominator(n, 1, d);
    let q = n / d;
    assert(q * d == d * q) by (nonlinear_arith);
    assert((q + 1) * d == q * d + d) by (nonlinear_arith);
    assert(n / 1 == n);
}

/// The minutes a battery has left, from its status text, current (µA),
/// charge (µAh) and full charge (µAh).
pub fn battery_time_remaining(status: &str, current: i64, charge_now: i64, charge_full: i64) -> (r:
    Option<i64>)
    requires
        current > 1000 && status@ == "Discharging"@ ==> i64::MIN <= charge_now * 60 <= i64::MAX,
        current > 1000 && status@ == "Charging"@ ==> i64::MIN <= charge_full - charge_now
            <= i64::MAX && (charge_full - charge_now) * 60 <= i64::MAX,
    ensures
        r == time_remaining(status@, current, charge_now, charge_full),
{
    if current <= 1000 {
        return None;
    }
    let s = to_chars(status);
    let discharging = to_chars("Discharging");
    let charging = to_chars("Charging");
    if chars_equal(s.as_slice(), discharging.as_slice()) {
        let n = charge_now * 60;
        if n <= 0 {
            Some(0)
        } else {
            Some(n / current)
        }
    } else if chars_equal(s.as_slice(), charging.as_slice()) {
        let diff = charge_full - charge_now;
        let missing = if diff > 0 {
            diff
        } else {
            0
        };
        let n = missing * 60;
        if n <= 0 {
            Some(0)
        } else {
            Some(n / current)
        }
    } else {
        None
    }
}

/// A battery among the entries of `/sys/class/power_supply`.
pub fn is_battery_supply(entry: &str) -> (b: bool)
    ensures
        b == has_prefix(entry@, "BAT"@),
{
    let cs = to_chars(entry);
    let p = to_chars("BAT");
    starts_with(cs.as_slice(), p.as_slice())
}

/// A mains adapter among the entries of `/sys/class/power_supply`.
pub fn is_ac_supply(entry: &str) -> (b: bool)
    ensures
        b == (has_prefix(entry@, "ADP"@) || has_prefix(entry@, "AC"@)),
{
    let cs = to_chars(entry);
    let adp = to_chars("ADP");
    let ac = to_chars("AC");
    starts_with(cs.as_slice(), adp.as_slice()) || starts_with(cs.as_slice(), ac.as_slice())
}

/// A supply whose own power reading counts as external power: not a battery
/// (by its trimmed `type` text) and online (its `online` reading is 1).
pub fn is_online_external_supply(type_text: &str, online: i64) -> (b: bool)
    ensures
        b == (trim(type_text@) != "Battery"@ && online == 1),
{
    let cs = to_chars(type_text);
    let (a, x) = trim_span(cs.as_slice());
    let battery = to_chars("Battery");
    !chars_equal(&cs.as_slice()[a..x], battery.as_slice()) && online == 1
}

pub open spec fn supply_dir() -> Seq<char> {
    "/sys/class/power_supply/"@
}

/// The first entry whose name starts with `BAT`.
pub open spec fn first_battery(entries: Seq<Seq<char>>) -> Option<Seq<char>>
    decreases entries.len(),
{
    if entries.len() == 0 {
        None
    } else if has_prefix(entries[0], "BAT"@) {
        Some(entries[0])
    } else {
        first_battery(entries.drop_first())
    }
}

/// The first entry whose name starts with `ADP` or `AC`.
pub open spec fn first_adapter(entries: Seq<Seq<char>>) -> Option<Seq<char>>
    decreases entries.len(),
{
    if entries.len() == 0 {
        None
    } else if has_prefix(entries[0], "ADP"@) || has_prefix(entries[0], "AC"@) {
        Some(entries[0])
    } else {
        first_adapter(entries.drop_first())
    }
}

pub open spec fn entry_names(entries: Seq<&str>) -> Seq<Seq<char>> {
    entries.map_values(|e: &str| e@)
}

/// The battery to report: `BAT0` where it exists, else the first entry of
/// the supply directory named like a battery.
pub open spec fn battery_base(bat0_present: bool, entries: Seq<Seq<char>>) -> Option<Seq<char>> {
    if bat0_present {
        Some(supply_dir() + "BAT0"@)
    } else {
        match first_battery(entries) {
            Some(name) => Some(supply_dir() + name),
            None => None,
        }
    }
}

/// The mains adapter to report: the first of `ADP1`, `AC` and `ACAD` that
/// exists, else the first entry of the supply directory named like an adapter.
pub open spec fn adapter_base(
    adp1_present: bool,
    ac_present: bool,
    acad_present: bool,
    entries: Seq<Seq<char>>,
) -> Option<Seq<char>> {
    if adp1_present {
        Some(supply_dir() + "ADP1"@)
    } else if ac_present {
        Some(supply_dir() + "AC"@)
    } else if acad_present {
        Some(supply_dir() + "ACAD"@)
    } else {
        match first_adapter(entries) {
            Some(name) => Some(supply_dir() + name),
            None => None,
        }
    }
}

fn supply_path(name: &str) -> (r: String)
    ensures
        r@ == supply_dir() + name@,
{
    let mut r = String::from_str("/sys/class/power_supply/");
    r.append(name);
    r
}

/// The path of the battery to report, given whether `BAT0` exists and the
/// entries of `/sys/class/power_supply`.
pub fn pick_battery_base(bat0_present: bool, entries: &[&str]) -> (r: Option<String>)
    ensures
        match battery_base(bat0_present, entry_names(entries@)) {
            Some(p) => r.is_some() && r.unwrap()@ == p,
            None => r.is_none(),
        },
{
    if bat0_present {
        return Some(supply_path("BAT0"));
    }
    let ghost names = entry_names(entries@);
    let mut i: usize = 0;
    assert(names.skip(0) == names);
    while i < entries.len()
        invariant
            names == entry_names(entries@),
            !bat0_present,
            i <= entries@.len(),
            first_battery(names) == first_battery(names.skip(i as int)),
        decreases entries.len() - i,
    {
        assert(names.skip(i as int)[0] == entries@[i as int]@);
        if is_battery_supply(entries[i]) {
            return Some(supply_path(entries[i]));
        }
        assert(names.skip(i as int).drop_first() == names.skip(i + 1));
        i = i + 1;
    }
    None
}

/// The path of the mains adapter to report, given whether `ADP1`, `AC` and
/// `ACAD` exist and the entries of `/sys/class/power_supply`.
pub fn pick_ac_base(adp1_present: bool, ac_present: bool, acad_present: bool, entries: &[&str]) -> (r:
    Option<String>)
    ensures
        match adapter_base(adp1_present, ac_present, acad_present, entry_names(entries@)) {
            Some(p) => r.is_some() && r.unwrap()@ == p,
            None => r.is_none(),
        },
{
    if adp1_present {
        return Some(supply_path("ADP1"));
    }
    if ac_present {
        return Some(supply_path("AC"));
    }
    if acad_present {
        return Some(supply_path("ACAD"));
    }
    let ghost names = entry_names(entries@);
    let mut i: usize = 0;
    assert(names.skip(0) == names);
    while i < entries.len()
        invariant
            names == entry_names(entries@),
            !adp1_present && !ac_present && !acad_present,
            i <= entries@.len(),
            first_adapter(names) == first_adapter(names.skip(i as int)),
        decreases entries.len() - i,
    {
        assert(names.skip(i as int)[0] == entries@[i as int]@);
        if is_ac_supply(entries[i]) {
            return Some(supply_path(entries[i]));
        }
        assert(names.skip(i as int).drop_first() == names.skip(i + 1));
        i = i + 1;
    }
    None
}

} // verus!
