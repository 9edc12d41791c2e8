//! Temperature sensors: which sysfs entries are sensors, and the names a
//! sensor is listed under.
use vstd::prelude::*;
use crate::patterns::{captures, compile, group, group_at, regex_captures, regex_compiles, Pattern};
use crate::text::{has_prefix, starts_with, to_chars, to_string, trim, trim_span};

verus! {

/// The names a sensor is listed under: kind, id, label and source.
#[derive(Debug)]
pub struct SensorNames {
    pub kind: String,
    pub id: String,
    pub label: String,
    pub source: String,
}

pub open spec fn names_view(n: SensorNames) -> (Seq<char>, Seq<char>, Seq<char>, Seq<char>) {
    (n.kind@, n.id@, n.label@, n.source@)
}

fn trimmed(s: &str) -> (r: String)
    ensures
        r@ == trim(s@),
{
    let cs = to_chars(s);
    let (a, b) = trim_span(cs.as_slice());
    to_string(&cs.as_slice()[a..b])
}

fn concat3(a: &str, b: &str, c: &str) -> (r: String)
    ensures
        r@ == a@ + b@ + c@,
{
    let mut r = String::from_str(a);
    r.append(b);
    r.append(c);
    r
}

/// A thermal zone directory of `/sys/class/thermal`.
pub fn is_thermal_zone(entry: &str) -> (b: bool)
    ensures
        b == has_prefix(entry@, "thermal_zone"@),
{
    let cs = to_chars(entry);
    let p = to_chars("thermal_zone");
    starts_with(cs.as_slice(), p.as_slice())
}

/// A hardware monitor directory of `/sys/class/hwmon`.
pub fn is_hwmon(entry: &str) -> (b: bool)
    ensures
        b == has_prefix(entry@, "hwmon"@),
{
    let cs = to_chars(entry);
    let p = to_chars("hwmon");
    starts_with(cs.as_slice(), p.as_slice())
}

/// A thermal zone is labelled by its trimmed `type` text, or by its name
/// where that is blank.
pub open spec fn thermal_names(zone: Seq<char>, type_text: Seq<char>) -> (
    Seq<char>,
    Seq<char>,
    Seq<char>,
    Seq<char>,
) {
    (
        "thermal"@,
        zone,
        if trim(type_text).len() > 0 {
            trim(type_text)
        } else {
            zone
        },
        "thermal/"@ + zone,
    )
}

pub fn thermal_sensor_names(zone: &str, type_text: &str) -> (r: SensorNames)
    ensures
        names_view(r) == thermal_names(zone@, type_text@),
{
    let label = trimmed(type_text);
    let label = if label.as_str().is_empty() {
        String::from_str(zone)
    } else {
        label
    };
    let mut source = String::from_str("thermal/");
    source.append(zone);
    SensorNames { kind: String::from_str("thermal"), id: String::from_str(zone), label, source }
}

/// A temperature input file of a hardware monitor.
pub const TEMP_INPUT: &'static str = "^(temp\\d+)_input$";

/// The sensor index (`temp<N>`) that a file name holds, where it is a
/// temperature input.
pub open spec fn temp_index(file_name: Seq<char>) -> Option<Seq<char>> {
    match regex_captures(TEMP_INPUT@, file_name) {
        Some(g) => group(g, 1),
        None => None,
    }
}

/// Tells temperature input files apart from the other files of a monitor.
pub struct TempInputMatcher {
    pattern: Pattern,
}

impl TempInputMatcher {
    pub closed spec fn wf(self) -> bool {
        self.pattern@ == TEMP_INPUT@
    }

    /// `None` where the pattern does not compile.
    pub fn new() -> (r: Option<Self>)
        ensures
            r.is_some() == regex_compiles(TEMP_INPUT@),
            r matches Some(m) ==> m.wf(),
    {
        match compile(TEMP_INPUT) {
            Some(pattern) => Some(TempInputMatcher { pattern }),
            None => None,
        }
    }

    pub fn index(&self, file_name: &str) -> (r: Option<String>)
        requires
            self.wf(),
        ensures
            match temp_index(file_name@) {
                Some(i) => r.is_some() && r.unwrap()@ == i,
                None => r.is_none(),
            },
    {
        match captures(&self.pattern, file_name) {
            Some(groups) => match group_at(&groups, 1) {
                Some(i) => Some(i.clone()),
                None => None,
            },
            None => None,
        }
    }
}

/// A hardware monitor's sensor is named after the chip (the trimmed `name`
/// text, or the monitor's directory name where that is blank): id
/// `<monitor>:<index>`, label the trimmed label text or `<chip> <index>`,
/// source `<chip>/<index>`.
pub open spec fn hwmon_names(
    monitor: Seq<char>,
    chip_text: Seq<char>,
    index: Seq<char>,
    label_text: Seq<char>,
) -> (Seq<char>, Seq<char>, Seq<char>, Seq<char>) {
    let chip = if trim(chip_text).len() > 0 {
        trim(chip_text)
    } else {
        monitor
    };
    (
        "hwmon"@,
        monitor + ":"@ + index,
        if trim(label_text).len() > 0 {
            trim(label_text)
        } else {
            chip + " "@ + index
        },
        chip + "/"@ + index,
    )
}

/// A hardware monitor sensor is named after its chip where the chip has a
/// name, else after the monitor directory: the label (where the label text is
/// blank) and the source name that same chip; a label text that is not blank
/// is the label, trimmed; the id is always `<monitor>:<index>`.
pub proof fn law_hwmon_names_follow_chip(
    monitor: Seq<char>,
    chip_text: Seq<char>,
    index: Seq<char>,
    label_text: Seq<char>,
)
    ensures
        hwmon_names(monitor, chip_text, index, label_text).0 == "hwmon"@,
        hwmon_names(monitor, chip_text, index, label_text).1 == monitor + ":"@ + index,
        trim(label_text).len() > 0 ==> hwmon_names(monitor, chip_text, index, label_text).2 == trim(
            label_text,
        ),
        trim(label_text).len() == 0 && trim(chip_text).len() > 0 ==> hwmon_names(
            monitor,
            chip_text,
            index,
            label_text,
        ).2 == trim(chip_text) + " "@ + index,
        trim(label_text).len() == 0 && trim(chip_text).len() == 0 ==> hwmon_names(
            monitor,
            chip_text,
            index,
            label_text,
        ).2 == monitor + " "@ + index,
        trim(chip_text).len() > 0 ==> hwmon_names(monitor, chip_text, index, label_text).3 == trim(
            chip_text,
        ) + "/"@ + index,
        trim(chip_text).len() == 0 ==> hwmon_names(monitor, chip_text, index, label_text).3
            == monitor + "/"@ + index,
{
}

/// A thermal zone's id is its directory name, its source `thermal/<zone>`,
/// and its label the trimmed type text, or the zone name where that is blank.
pub proof fn law_thermal_names(zone: Seq<char>, type_text: Seq<char>)
    ensures
        thermal_names(zone, type_text).0 == "thermal"@,
        thermal_names(zone, type_text).1 == zone,
        trim(type_text).len() > 0 ==> thermal_names(zone, type_text).2 == trim(type_text),
        trim(type_text).len() == 0 ==> thermal_names(zone, type_text).2 == zone,
        thermal_names(zone, type_text).3 == "thermal/"@ + zone,
{
}

pub fn hwmon_sensor_names(monitor: &str, chip_text: &str, index: &str, label_text: &str) -> (r:
    SensorNames)
    ensures
        names_view(r) == hwmon_names(monitor@, chip_text@, index@, label_text@),
{
    let chip = trimmed(chip_text);
    let chip = if chip.as_str().is_empty() {
        String::from_str(monitor)
    } else {
        chip
    };
    let label = trimmed(label_text);
    let label = if label.as_str().is_empty() {
        concat3(chip.as_str(), " ", index)
    } else {
        label
    };
    SensorNames {
        kind: String::from_str("hwmon"),
        id: concat3(monitor, ":", index),
        label,
        source: concat3(chip.as_str(), "/", index),
    }
}

} // verus!
