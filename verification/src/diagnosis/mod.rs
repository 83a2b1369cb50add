//! The health of the disks: the check before a comparison, and the extended check
//! by itself.
//!
//! The text that the health tool prints is the same everywhere, so there is one
//! reader. What depends on the system is how one gets hold of that text.
use vstd::prelude::*;
use vstd::slice::slice_subrange;

pub mod linux;
pub mod windows;

use crate::error::CmdError;
use crate::sys::{system_name, System};
use crate::text::number::{
    hex_number_in_front, leading_hex, leading_number, number_in_front, number_of, whole_number,
};
use crate::text::search::{
    contains, find, find_in, holds, law_the_first_character_is_found, lemma_find_from, lines,
    lines_of, starts_with, trim, trimmed, words, words_of,
};
use crate::text::{chars_of, reads, same_str, views};

verus! {

/// The extended check that is running: the process that does it, and the file
/// whose appearance tells it to stop. Empty where none is running, and where the
/// check is stopped in another way.
#[derive(Debug)]
pub struct DeepCheckPid {
    /// Process and file.
    pub running: Option<(u32, String)>,
}

impl DeepCheckPid {
    /// No check is running.
    pub fn new() -> (r: Self)
        ensures
            r.running is None,
    {
        DeepCheckPid { running: None }
    }

    /// A check began.
    pub fn started(&mut self, pid: u32, sentinel: String)
        ensures
            final(self).running == Some((pid, sentinel)),
    {
        self.running = Some((pid, sentinel));
    }

    /// The check is to stop: what came back is to be told so, and from now on it
    /// counts as cancelled.
    pub fn kill(&mut self) -> (r: Option<(u32, String)>)
        ensures
            r == old(self).running,
            final(self).running is None,
    {
        self.running.take()
    }

    /// The check ended; whether it was cancelled.
    pub fn finished(&mut self) -> (cancelled: bool)
        ensures
            cancelled == (old(self).running is None),
            final(self).running is None,
    {
        let cancelled = self.running.is_none();
        self.running = None;
        cancelled
    }
}

/// The verdict on one disk, in the plain words that are shown.
#[derive(Debug)]
pub struct DiskDiagnosis {
    /// The whole disk, or nothing if it could not be resolved.
    pub device: String,
    /// "ok", "warning", "critical" or "unknown".
    pub level: String,
    /// The disk said something that can be read.
    pub smart_available: bool,
    /// How long the extended check takes, in minutes; nought if the disk does not
    /// say.
    pub estimated_deep_minutes: u32,
}

/// The verdict on both disks.
#[derive(Debug)]
pub struct DiagnosisResult {
    /// The disk of the first side.
    pub disk_a: DiskDiagnosis,
    /// The disk of the second side.
    pub disk_b: DiskDiagnosis,
    /// The worse of the two.
    pub overall_level: String,
}

/// An extended check began.
#[derive(Debug)]
pub struct DeepCheckStarted {
    /// The disk.
    pub device: String,
    /// How long it takes, in minutes.
    pub estimated_minutes: u32,
}

/// An extended check ended.
#[derive(Debug)]
pub struct DeepCheckResult {
    /// The report was saved.
    pub success: bool,
    /// The user stopped it.
    pub cancelled: bool,
    /// Where the report is.
    pub saved_path: String,
    /// What went wrong.
    pub error: Option<CmdError>,
}

impl DeepCheckResult {
    /// The check was stopped.
    pub open spec fn is_cancelled(self) -> bool {
        !self.success && self.cancelled && self.saved_path@.len() == 0 && self.error is None
    }

    /// The check failed with this key and these words.
    pub open spec fn failed_with(self, code: Seq<char>, detail: Seq<char>) -> bool {
        !self.success && !self.cancelled && self.saved_path@.len() == 0 && (self.error matches
            Some(e) && e.says(code, detail))
    }

    /// The report is at this place.
    pub open spec fn is_saved(self, path: Seq<char>) -> bool {
        self.success && !self.cancelled && self.saved_path@ == path && self.error is None
    }

    /// A check that was stopped.
    pub fn stopped() -> (r: Self)
        ensures
            r.is_cancelled(),
    {
        DeepCheckResult {
            success: false,
            cancelled: true,
            saved_path: String::new(),
            error: None,
        }
    }

    /// A check that failed.
    pub fn failed(error: CmdError) -> (r: Self)
        ensures
            r.failed_with(error.code@, error.detail@),
    {
        DeepCheckResult {
            success: false,
            cancelled: false,
            saved_path: String::new(),
            error: Some(error),
        }
    }

    /// A check whose report was saved.
    pub fn saved(path: String) -> (r: Self)
        ensures
            r.is_saved(path@),
    {
        DeepCheckResult { success: true, cancelled: false, saved_path: path, error: None }
    }
}

/// How bad a level is. What is not known is worth a warning.
pub open spec fn severity(level: Seq<char>) -> int {
    if level == "ok"@ {
        0
    } else if level == "critical"@ {
        2
    } else {
        1
    }
}

/// How bad a level is.
fn priority(level: &str) -> (r: u8)
    ensures
        r == severity(level@),
{
    if same_str(level, "ok") {
        0
    } else if same_str(level, "critical") {
        2
    } else {
        1
    }
}

/// The worse of two levels, and the first where they are equally bad.
pub open spec fn worse(a: Seq<char>, b: Seq<char>) -> Seq<char> {
    if severity(a) >= severity(b) {
        a
    } else {
        b
    }
}

/// The worse of two levels.
pub fn worst_level(a: &str, b: &str) -> (r: String)
    ensures
        r@ == worse(a@, b@),
{
    if priority(a) >= priority(b) {
        a.to_owned()
    } else {
        b.to_owned()
    }
}

/// The raw value of an attribute in a report of a spinning disk or a SATA one:
/// the number in front of the tenth column of its line. Negative where the
/// report does not have it.
pub open spec fn attribute(report: Seq<Seq<char>>, name: Seq<char>) -> int
    decreases report.len(),
{
    if report.len() == 0 {
        -1
    } else {
        let cols = words(report.first());
        if cols.len() >= 10 && cols[1] == name && leading_number(cols[9], i64::MAX as nat)
            is Some {
            leading_number(cols[9], i64::MAX as nat)->0 as int
        } else {
            attribute(report.drop_first(), name)
        }
    }
}

/// The raw value of an attribute.
fn parse_smart_value(report: &Vec<&[char]>, name: &str) -> (r: i64)
    ensures
        r == attribute(views(report@), name@),
{
    let ghost all = views(report@);
    let n: usize = report.len();
    assert(all.skip(0) =~= all);
    for i in 0..n
        invariant
            n == report@.len(),
            all == views(report@),
            attribute(all, name@) == attribute(all.skip(i as int), name@),
    {
        assert(all.skip(i as int).first() == report@[i as int]@);
        assert(all.skip(i as int).drop_first() =~= all.skip(i as int + 1));
        let cols = words_of(report[i]);
        if cols.len() >= 10 {
            assert(views(cols@)[1] == cols@[1]@);
            assert(views(cols@)[9] == cols@[9]@);
            if reads(cols[1], name) {
                match number_in_front(cols[9], i64::MAX as u64) {
                    Some(v) => {
                        return v as i64;
                    },
                    None => {},
                }
            }
        }
    }
    assert(all.skip(n as int) =~= Seq::<Seq<char>>::empty());
    -1
}

/// The verdict on a spinning disk or a SATA one, from the two attributes that say
/// whether the surface is giving way. None where the report has neither: that is
/// not a healthy disk, it is a disk of another kind.
pub open spec fn ata_level(report: Seq<Seq<char>>) -> Option<Seq<char>> {
    let pending = attribute(report, "Current_Pending_Sector"@);
    let reallocated = attribute(report, "Reallocated_Sector_Ct"@);
    if pending < 0 && reallocated < 0 {
        None
    } else if reallocated >= 1 || pending >= 10 {
        Some("critical"@)
    } else if pending >= 1 {
        Some("warning"@)
    } else {
        Some("ok"@)
    }
}

/// The text behind an optional level.
pub open spec fn level_text(level: Option<&'static str>) -> Option<Seq<char>> {
    match level {
        Some(s) => Some(s@),
        None => None,
    }
}

/// The verdict on a spinning disk or a SATA one.
fn classify_ata(report: &Vec<&[char]>) -> (r: Option<&'static str>)
    ensures
        level_text(r) == ata_level(views(report@)),
{
    let pending: i64 = parse_smart_value(report, "Current_Pending_Sector");
    let reallocated: i64 = parse_smart_value(report, "Reallocated_Sector_Ct");
    if pending < 0 && reallocated < 0 {
        return None;
    }
    if reallocated >= 1 || pending >= 10 {
        return Some("critical");
    }
    if pending >= 1 {
        return Some("warning");
    }
    Some("ok")
}

/// What follows the colon on the first line of a health log that has this label,
/// without the white space around it.
pub open spec fn labelled(report: Seq<Seq<char>>, name: Seq<char>) -> Option<Seq<char>>
    decreases report.len(),
{
    if report.len() == 0 {
        None
    } else {
        match find(report.first(), ":"@) {
            Some(i) if trim(report.first().take(i)) == name => Some(
                trim(report.first().skip(i + 1)),
            ),
            _ => labelled(report.drop_first(), name),
        }
    }
}

/// What follows a label.
fn field<'a>(report: &Vec<&'a [char]>, name: &str) -> (r: Option<&'a [char]>)
    ensures
        match r {
            Some(v) => labelled(views(report@), name@) == Some(v@),
            None => labelled(views(report@), name@) is None,
        },
{
    let colon = chars_of(":");
    proof {
        reveal_strlit(":");
    }
    let ghost all = views(report@);
    let n: usize = report.len();
    assert(all.skip(0) =~= all);
    for i in 0..n
        invariant
            n == report@.len(),
            all == views(report@),
            colon@ == ":"@,
            colon@.len() == 1,
            labelled(all, name@) == labelled(all.skip(i as int), name@),
    {
        let line: &'a [char] = report[i];
        let len: usize = line.len();
        proof {
            assert(all.skip(i as int).first() == line@);
            assert(all.skip(i as int).drop_first() =~= all.skip(i as int + 1));
            lemma_find_from(line@, ":"@, 0);
        }
        match find_in(line, &colon) {
            Some(at) => {
                let label = slice_subrange(line, 0, at);
                let value = slice_subrange(line, at + 1, len);
                assert(label@ =~= line@.take(at as int));
                assert(value@ =~= line@.skip(at + 1));
                if reads(trimmed(label), name) {
                    return Some(trimmed(value));
                }
            },
            None => {},
        }
    }
    assert(all.skip(n as int) =~= Seq::<Seq<char>>::empty());
    None
}

/// The number in front of what follows a label, without its unit.
pub open spec fn labelled_number(report: Seq<Seq<char>>, name: Seq<char>) -> Option<nat> {
    match labelled(report, name) {
        Some(v) => leading_number(v, i64::MAX as nat),
        None => None,
    }
}

/// The number in front of what follows a label.
fn field_number(report: &Vec<&[char]>, name: &str) -> (r: Option<i64>)
    ensures
        match r {
            Some(n) => labelled_number(views(report@), name@) == Some(n as nat) && n >= 0,
            None => labelled_number(views(report@), name@) is None,
        },
{
    match field(report, name) {
        Some(v) => match number_in_front(v, i64::MAX as u64) {
            Some(n) => Some(n as i64),
            None => None,
        },
        None => None,
    }
}

/// The flags that a disk raises about itself, in hexadecimal after a marker.
pub open spec fn labelled_flags(report: Seq<Seq<char>>, name: Seq<char>) -> Option<nat> {
    match labelled(report, name) {
        Some(v) => if "0x"@.is_prefix_of(v) || "0X"@.is_prefix_of(v) {
            leading_hex(v.skip(2), u64::MAX as nat)
        } else {
            None
        },
        None => None,
    }
}

/// The flags that a disk raises about itself.
fn field_flags(report: &Vec<&[char]>, name: &str) -> (r: Option<u64>)
    ensures
        match r {
            Some(n) => labelled_flags(views(report@), name@) == Some(n as nat),
            None => labelled_flags(views(report@), name@) is None,
        },
{
    match field(report, name) {
        Some(v) => {
            let small = chars_of("0x");
            let large = chars_of("0X");
            proof {
                reveal_strlit("0x");
                reveal_strlit("0X");
            }
            if starts_with(v, &small) || starts_with(v, &large) {
                let digits = slice_subrange(v, 2, v.len());
                assert(digits@ =~= v@.skip(2));
                hex_number_in_front(digits, u64::MAX)
            } else {
                None
            }
        },
        None => None,
    }
}

/// A number that may be missing, and then counts as nought.
pub open spec fn or_zero(n: Option<nat>) -> nat {
    match n {
        Some(v) => v,
        None => 0,
    }
}

/// The verdict on a solid-state disk of the newer kind, whose health is in a log
/// of its own. Any flag that the disk raises about itself outranks every other
/// reading; spare blocks down to the threshold that the disk itself declares mean
/// that it can no longer replace what fails.
pub open spec fn nvme_level(report: Seq<Seq<char>>) -> Option<Seq<char>> {
    let flags = labelled_flags(report, "Critical Warning"@);
    let spare = labelled_number(report, "Available Spare"@);
    let threshold = labelled_number(report, "Available Spare Threshold"@);
    let used = labelled_number(report, "Percentage Used"@);
    let integrity = labelled_number(report, "Media and Data Integrity Errors"@);
    if flags is None && spare is None && used is None && integrity is None {
        None
    } else if or_zero(flags) != 0 {
        Some("critical"@)
    } else if spare is Some && threshold is Some && spare->0 <= threshold->0 {
        Some("critical"@)
    } else if or_zero(integrity) >= 10 {
        Some("critical"@)
    } else if or_zero(integrity) >= 1 {
        Some("warning"@)
    } else if or_zero(used) >= 100 {
        Some("warning"@)
    } else {
        Some("ok"@)
    }
}

/// The verdict on a solid-state disk of the newer kind.
fn classify_nvme(report: &Vec<&[char]>) -> (r: Option<&'static str>)
    ensures
        level_text(r) == nvme_level(views(report@)),
{
    let flags = field_flags(report, "Critical Warning");
    let spare = field_number(report, "Available Spare");
    let threshold = field_number(report, "Available Spare Threshold");
    let used = field_number(report, "Percentage Used");
    let integrity = field_number(report, "Media and Data Integrity Errors");
    if flags.is_none() && spare.is_none() && used.is_none() && integrity.is_none() {
        return None;
    }
    let raised: u64 = match flags {
        Some(n) => n,
        None => 0,
    };
    if raised != 0 {
        return Some("critical");
    }
    if let Some(s) = spare {
        if let Some(t) = threshold {
            if s <= t {
                return Some("critical");
            }
        }
    }
    let errors: i64 = match integrity {
        Some(n) => n,
        None => 0,
    };
    if errors >= 10 {
        return Some("critical");
    }
    if errors >= 1 {
        return Some("warning");
    }
    let worn: i64 = match used {
        Some(n) => n,
        None => 0,
    };
    if worn >= 100 {
        return Some("warning");
    }
    Some("ok")
}

/// What stands between the first opening and the first closing bracket of a line,
/// where the closing one comes later.
pub open spec fn bracketed(line: Seq<char>) -> Option<Seq<char>> {
    match (find(line, "("@), find(line, ")"@)) {
        (Some(s), Some(e)) => if s < e {
            Some(line.subrange(s + 1, e))
        } else {
            None
        },
        _ => None,
    }
}

/// What stands between the brackets of a line.
pub(crate) fn in_brackets<'a>(line: &'a [char]) -> (r: Option<&'a [char]>)
    ensures
        match r {
            Some(v) => bracketed(line@) == Some(v@),
            None => bracketed(line@) is None,
        },
{
    let open = chars_of("(");
    let close = chars_of(")");
    proof {
        reveal_strlit("(");
        reveal_strlit(")");
        lemma_find_from(line@, "("@, 0);
        lemma_find_from(line@, ")"@, 0);
    }
    match find_in(line, &open) {
        Some(s) => match find_in(line, &close) {
            Some(e) => if s < e {
                Some(slice_subrange(line, s + 1, e))
            } else {
                None
            },
            None => None,
        },
        None => None,
    }
}

/// How long the extended test takes, in minutes, as the disk declares it: the
/// number in brackets on the line that follows the name of the test. Nought where
/// it is not declared.
pub open spec fn declared_minutes(report: Seq<Seq<char>>, follows: bool) -> nat
    decreases report.len(),
{
    if report.len() == 0 {
        0
    } else {
        let line = report.first();
        let rest = report.drop_first();
        if contains(line, "Extended self-test routine"@) {
            declared_minutes(rest, true)
        } else if follows && contains(line, "recommended polling time"@) {
            match bracketed(line) {
                Some(v) => match whole_number(trim(v), u32::MAX as nat) {
                    Some(n) => n,
                    None => declared_minutes(rest, false),
                },
                None => declared_minutes(rest, false),
            }
        } else {
            declared_minutes(rest, false)
        }
    }
}

/// How long the extended test takes, in minutes.
fn minutes_in(report: &Vec<&[char]>) -> (r: u32)
    ensures
        r == declared_minutes(views(report@), false),
{
    let routine = chars_of("Extended self-test routine");
    let polling = chars_of("recommended polling time");
    let ghost all = views(report@);
    let n: usize = report.len();
    let mut follows = false;
    assert(all.skip(0) =~= all);
    for i in 0..n
        invariant
            n == report@.len(),
            all == views(report@),
            routine@ == "Extended self-test routine"@,
            polling@ == "recommended polling time"@,
            declared_minutes(all, false) == declared_minutes(all.skip(i as int), follows),
    {
        let line = report[i];
        assert(all.skip(i as int).first() == line@);
        assert(all.skip(i as int).drop_first() =~= all.skip(i as int + 1));
        if holds(line, &routine) {
            follows = true;
        } else {
            if follows && holds(line, &polling) {
                match in_brackets(line) {
                    Some(v) => match number_of(trimmed(v), u32::MAX as u64) {
                        Some(m) => {
                            return m as u32;
                        },
                        None => {},
                    },
                    None => {},
                }
            }
            follows = false;
        }
    }
    assert(all.skip(n as int) =~= Seq::<Seq<char>>::empty());
    0
}

/// How long the extended test takes, in minutes, as the disk declares it.
pub fn parse_extended_test_minutes(smart_output: &str) -> (r: u32)
    ensures
        r == declared_minutes(lines(smart_output@), false),
{
    let chars = chars_of(smart_output);
    let report = lines_of(&chars);
    minutes_in(&report)
}

/// The tool got an answer from the disk.
pub open spec fn answered(smart: Seq<char>) -> bool {
    trim(smart).len() > 0 && !contains(smart, "NO_DEVICE"@) && !contains(
        smart,
        "Unable to detect device type"@,
    ) && !contains(smart, "Unknown USB bridge"@)
}

/// The level that a report stands for, where it carries a value that can be read.
pub open spec fn read_level(smart: Seq<char>) -> Option<Seq<char>> {
    if !answered(smart) {
        None
    } else {
        match ata_level(lines(smart)) {
            Some(level) => Some(level),
            None => nvme_level(lines(smart)),
        }
    }
}

/// The verdict that a report stands for.
pub open spec fn is_verdict(d: DiskDiagnosis, device: Seq<char>, smart: Seq<char>) -> bool {
    &&& d.device@ == device
    &&& d.smart_available == (read_level(smart) is Some)
    &&& match read_level(smart) {
        Some(level) => d.level@ == level && d.estimated_deep_minutes == declared_minutes(
            lines(smart),
            false,
        ),
        None => d.level@ == "unknown"@ && d.estimated_deep_minutes == 0,
    }
}

/// Whether the tool got an answer from the disk.
fn has_answered(smart: &[char]) -> (r: bool)
    ensures
        r == answered(smart@),
{
    let none = chars_of("NO_DEVICE");
    let undetected = chars_of("Unable to detect device type");
    let bridge = chars_of("Unknown USB bridge");
    trimmed(smart).len() > 0 && !holds(smart, &none) && !holds(smart, &undetected) && !holds(
        smart,
        &bridge,
    )
}

/// The verdict on one disk, from the text that the tool printed for it. Answering
/// is not the same as having said something: where a report carries none of the
/// values that can be read, the only honest verdict is that nothing is known.
pub fn build_disk(device: &str, smart: &str) -> (r: DiskDiagnosis)
    ensures
        is_verdict(r, device@, smart@),
{
    let chars = chars_of(smart);
    let report = lines_of(&chars);
    let level: Option<&'static str> = if has_answered(&chars) {
        match classify_ata(&report) {
            Some(l) => Some(l),
            None => classify_nvme(&report),
        }
    } else {
        None
    };
    match level {
        Some(l) => DiskDiagnosis {
            device: device.to_owned(),
            level: l.to_owned(),
            smart_available: true,
            estimated_deep_minutes: minutes_in(&report),
        },
        None => DiskDiagnosis {
            device: device.to_owned(),
            level: "unknown".to_owned(),
            smart_available: false,
            estimated_deep_minutes: 0,
        },
    }
}

/// The verdict on both disks, from the text that the tool printed for each.
pub fn diagnose(dev_a: &str, report_a: &str, dev_b: &str, report_b: &str) -> (r: DiagnosisResult)
    ensures
        is_verdict(r.disk_a, dev_a@, report_a@),
        is_verdict(r.disk_b, dev_b@, report_b@),
        r.overall_level@ == worse(r.disk_a.level@, r.disk_b.level@),
{
    let disk_a = build_disk(dev_a, report_a);
    let disk_b = build_disk(dev_b, report_b);
    let overall_level = worst_level(&disk_a.level, &disk_b.level);
    DiagnosisResult { disk_a, disk_b, overall_level }
}

/// A disk is called healthy only where a value was read that says so: a report
/// with nothing in it never comes back as a healthy disk.
pub proof fn law_healthy_means_read(d: DiskDiagnosis, device: Seq<char>, smart: Seq<char>)
    requires
        is_verdict(d, device, smart),
        d.level@ == "ok"@,
    ensures
        d.smart_available,
        answered(smart),
        attribute(lines(smart), "Current_Pending_Sector"@) == 0 || attribute(
            lines(smart),
            "Reallocated_Sector_Ct"@,
        ) == 0 || (labelled_flags(lines(smart), "Critical Warning"@) is Some || labelled_number(
            lines(smart),
            "Available Spare"@,
        ) is Some || labelled_number(lines(smart), "Percentage Used"@) is Some || labelled_number(
            lines(smart),
            "Media and Data Integrity Errors"@,
        ) is Some),
{
    lemma_levels_differ();
    lemma_attribute(lines(smart), "Current_Pending_Sector"@);
    lemma_attribute(lines(smart), "Reallocated_Sector_Ct"@);
}

/// What nobody can read is unknown, and nothing is said of the time it takes.
pub proof fn law_silence_is_unknown(d: DiskDiagnosis, device: Seq<char>, smart: Seq<char>)
    requires
        is_verdict(d, device, smart),
        !answered(smart) || (ata_level(lines(smart)) is None && nvme_level(lines(smart)) is None),
    ensures
        d.level@ == "unknown"@,
        !d.smart_available,
        d.estimated_deep_minutes == 0,
{
}

/// The overall level is never better than that of either disk, and it is that of
/// one of them.
pub proof fn law_the_worse_disk_decides(a: Seq<char>, b: Seq<char>)
    ensures
        severity(worse(a, b)) >= severity(a),
        severity(worse(a, b)) >= severity(b),
        worse(a, b) == a || worse(a, b) == b,
        worse(a, b) == "ok"@ ==> a == "ok"@ && b == "ok"@,
{
    lemma_levels_differ();
}

proof fn lemma_levels_differ()
    ensures
        "ok"@ != "unknown"@,
        "ok"@ != "warning"@,
        "ok"@ != "critical"@,
{
    reveal_strlit("ok");
    reveal_strlit("unknown");
    reveal_strlit("warning");
    reveal_strlit("critical");
    assert("ok"@.len() == 2);
    assert("unknown"@.len() == 7);
    assert("warning"@.len() == 7);
    assert("critical"@.len() == 8);
}

proof fn lemma_attribute(report: Seq<Seq<char>>, name: Seq<char>)
    ensures
        attribute(report, name) >= -1,
    decreases report.len(),
{
    if report.len() > 0 {
        lemma_attribute(report.drop_first(), name);
    }
}

/// Whether the tool is installed, and which system this is: the steps to install
/// it depend on that.
#[derive(Debug)]
pub struct SmartctlStatus {
    /// The tool is installed.
    pub available: bool,
    /// The name of the system.
    pub system: String,
}

/// Whether the tool is installed, from where it was found.
pub fn check_smartctl(system: System, found: &Option<String>) -> (r: SmartctlStatus)
    ensures
        r.available == (found is Some),
        r.system@ == match system {
            System::Linux => "linux"@,
            System::Windows => "windows"@,
        },
{
    SmartctlStatus { available: found.is_some(), system: system_name(system).to_owned() }
}

/// The job of the elevated half, where this start of the program is one: that is
/// recognised before anything else begins. Only one of the systems has such a
/// half.
pub fn run_helper_if_requested(system: System, args: &Vec<String>) -> (r: Option<windows::HelperJob>)
    ensures
        match system {
            System::Linux => r is None,
            System::Windows => windows::is_job(r, args@),
        },
{
    match system {
        System::Linux => None,
        System::Windows => windows::run_helper_if_requested(args),
    }
}

/// The device of a path, or nothing where it could not be resolved.
pub fn device_or_empty(device: Result<String, CmdError>) -> (r: String)
    ensures
        r@ == match device {
            Ok(d) => d@,
            Err(_) => Seq::empty(),
        },
{
    match device {
        Ok(d) => d,
        Err(_) => String::new(),
    }
}

/// A line of a report states an attribute: its second column is the name, and the tenth
/// begins with the number.
pub open spec fn states_attribute(line: Seq<char>, name: Seq<char>, n: nat) -> bool {
    let cols = words(line);
    cols.len() >= 10 && cols[1] == name && leading_number(cols[9], 0x7fff_ffff_ffff_ffff) == Some(n)
}

/// The value of an attribute is what the first line says that states it; a report without
/// such a line has none.
pub proof fn law_an_attribute_is_read_where_it_is_stated(
    before: Seq<Seq<char>>,
    line: Seq<char>,
    after: Seq<Seq<char>>,
    name: Seq<char>,
    n: nat,
)
    requires
        forall|i: int, k: nat|
            0 <= i < before.len() ==> !#[trigger] states_attribute(before[i], name, k),
        states_attribute(line, name, n),
    ensures
        attribute(before + seq![line] + after, name) == n,
        attribute(before, name) < 0,
    decreases before.len(),
{
    let all = before + seq![line] + after;
    if before.len() == 0 {
        assert(all.first() == line);
    } else {
        let less = before.drop_first();
        assert(all.first() == before[0]);
        assert(all.drop_first() =~= less + seq![line] + after);
        assert(before.first() == before[0]);
        assert forall|i: int, k: nat| 0 <= i < less.len() implies !#[trigger] states_attribute(
            less[i],
            name,
            k,
        ) by {
            assert(less[i] == before[i + 1]);
        }
        law_an_attribute_is_read_where_it_is_stated(less, line, after, name, n);
        let cols = words(before[0]);
        if cols.len() >= 10 && cols[1] == name && leading_number(cols[9], i64::MAX as nat) is Some {
            assert(states_attribute(
                before[0],
                name,
                leading_number(cols[9], i64::MAX as nat)->0,
            ));
        }
    }
}

/// A line of a health log has this label: the label and nothing but white space stands in
/// front of its first colon.
pub open spec fn has_label(line: Seq<char>, name: Seq<char>) -> bool {
    exists|front: Seq<char>, back: Seq<char>| #[trigger] labels(line, name, front, back)
}

/// A line is a label, a colon and what follows.
pub open spec fn labels(line: Seq<char>, name: Seq<char>, front: Seq<char>, back: Seq<char>) -> bool {
    line == front + seq![':'] + back && !front.contains(':') && trim(front) == name
}

/// What a label says is what follows the colon on the first line that has it, white space
/// aside; a log without such a line says nothing.
pub proof fn law_a_label_is_read_where_it_stands(
    before: Seq<Seq<char>>,
    front: Seq<char>,
    back: Seq<char>,
    after: Seq<Seq<char>>,
    name: Seq<char>,
)
    requires
        forall|i: int| 0 <= i < before.len() ==> !has_label(#[trigger] before[i], name),
        !front.contains(':'),
        trim(front) == name,
    ensures
        labelled(before + seq![front + seq![':'] + back] + after, name) == Some(trim(back)),
        labelled(before, name) is None,
    decreases before.len(),
{
    let line = front + seq![':'] + back;
    let all = before + seq![line] + after;
    reveal_strlit(":");
    assert(":"@ =~= seq![':']);
    if before.len() == 0 {
        assert(all.first() == line);
        law_the_first_character_is_found(front, ':', back);
        assert(line.take(front.len() as int) =~= front);
        assert(line.skip(front.len() as int + 1) =~= back);
    } else {
        let less = before.drop_first();
        let first = before[0];
        assert(all.first() == first);
        assert(before.first() == first);
        assert(all.drop_first() =~= less + seq![line] + after);
        assert forall|i: int| 0 <= i < less.len() implies !has_label(#[trigger] less[i], name) by {
            assert(less[i] == before[i + 1]);
        }
        law_a_label_is_read_where_it_stands(less, front, back, after, name);
        lemma_find_from(first, ":"@, 0);
        if let Some(i) = find(first, ":"@) {
            let x = first.take(i);
            let y = first.skip(i + 1);
            assert(first.subrange(i, i + 1)[0] == first[i]);
            assert(first =~= x + seq![':'] + y);
            assert(!x.contains(':')) by {
                if x.contains(':') {
                    let k = choose|k: int| 0 <= k < x.len() && x[k] == ':';
                    assert(first.subrange(k, k + 1) =~= seq![':']);
                    assert(crate::text::search::occurs_at(first, ":"@, k));
                }
            }
            if trim(x) == name {
                assert(labels(first, name, x, y));
            }
        }
    }
}

/// The number of a label is the one in front of what the label says, without its unit;
/// flags are the hexadecimal number behind their marker.
pub proof fn law_a_labelled_value_is_the_number_in_front(
    report: Seq<Seq<char>>,
    name: Seq<char>,
    said: Seq<char>,
)
    requires
        labelled(report, name) == Some(said),
    ensures
        labelled_number(report, name) == leading_number(said, 0x7fff_ffff_ffff_ffff),
        said.len() >= 2 && said[0] == '0' && (said[1] == 'x' || said[1] == 'X') ==> labelled_flags(
            report,
            name,
        ) == leading_hex(said.skip(2), 0xffff_ffff_ffff_ffff),
        !(said.len() >= 2 && said[0] == '0' && (said[1] == 'x' || said[1] == 'X'))
            ==> labelled_flags(report, name) is None,
{
    reveal_strlit("0x");
    reveal_strlit("0X");
    if said.len() >= 2 {
        assert(said.take(2)[0] == said[0] && said.take(2)[1] == said[1]);
        if said[0] == '0' && said[1] == 'x' {
            assert(said.take(2) =~= "0x"@);
        }
        if said[0] == '0' && said[1] == 'X' {
            assert(said.take(2) =~= "0X"@);
        }
    }
}

/// The tool got nothing from the disk: it printed nothing, or says that there is no disk
/// or that it cannot tell what it is.
pub open spec fn no_answer(smart: Seq<char>) -> bool {
    ||| trim(smart).len() == 0
    ||| contains(smart, "NO_DEVICE"@)
    ||| contains(smart, "Unable to detect device type"@)
    ||| contains(smart, "Unknown USB bridge"@)
}

/// Where the tool got nothing from the disk the verdict is that nothing is known, whatever
/// else the text holds.
pub proof fn law_no_answer_is_unknown(d: DiskDiagnosis, device: Seq<char>, smart: Seq<char>)
    requires
        is_verdict(d, device, smart),
        no_answer(smart),
    ensures
        d.device@ == device,
        d.level@ == "unknown"@,
        !d.smart_available,
        d.estimated_deep_minutes == 0,
{
}

/// A report with one of the two sector counts is judged by them alone: a single sector
/// that was replaced, or ten that wait to be, are critical; one that waits is a warning;
/// none at all is healthy.
pub proof fn law_sectors_decide(d: DiskDiagnosis, device: Seq<char>, smart: Seq<char>)
    requires
        is_verdict(d, device, smart),
        !no_answer(smart),
        attribute(lines(smart), "Current_Pending_Sector"@) >= 0 || attribute(
            lines(smart),
            "Reallocated_Sector_Ct"@,
        ) >= 0,
    ensures
        ({
            let pending = attribute(lines(smart), "Current_Pending_Sector"@);
            let replaced = attribute(lines(smart), "Reallocated_Sector_Ct"@);
            &&& d.device@ == device && d.smart_available
            &&& d.level@ == "critical"@ <==> replaced >= 1 || pending >= 10
            &&& d.level@ == "warning"@ <==> replaced < 1 && 1 <= pending < 10
            &&& d.level@ == "ok"@ <==> replaced < 1 && pending < 1
            &&& d.estimated_deep_minutes == declared_minutes(lines(smart), false)
        }),
{
    lemma_levels_differ();
    lemma_warning_is_not_critical();
}

/// What a health log of the newer kind states badly is never healthy, whatever else it
/// states: a raised flag, spare blocks down to the threshold, or ten integrity errors are
/// critical; one integrity error, or a disk that is used up, is at least a warning.
pub proof fn law_a_bad_value_is_never_healthy(d: DiskDiagnosis, device: Seq<char>, smart: Seq<char>)
    requires
        is_verdict(d, device, smart),
        !no_answer(smart),
        attribute(lines(smart), "Current_Pending_Sector"@) < 0,
        attribute(lines(smart), "Reallocated_Sector_Ct"@) < 0,
    ensures
        ({
            let flags = labelled_flags(lines(smart), "Critical Warning"@);
            let spare = labelled_number(lines(smart), "Available Spare"@);
            let threshold = labelled_number(lines(smart), "Available Spare Threshold"@);
            let used = labelled_number(lines(smart), "Percentage Used"@);
            let errors = labelled_number(lines(smart), "Media and Data Integrity Errors"@);
            let critical = (flags matches Some(n) && n > 0) || (spare matches Some(left)
                && threshold matches Some(least) && left <= least) || (errors matches Some(n) && n
                >= 10);
            let bad = critical || (errors matches Some(n) && n >= 1) || (used matches Some(n) && n
                >= 100);
            let stated = flags is Some || spare is Some || used is Some || errors is Some;
            &&& d.device@ == device
            &&& d.level@ == "critical"@ <==> critical
            &&& d.level@ == "warning"@ <==> bad && !critical
            &&& d.level@ == "ok"@ <==> stated && !bad
            &&& d.level@ == "unknown"@ <==> !stated
            &&& d.smart_available <==> stated
            &&& stated ==> d.estimated_deep_minutes == declared_minutes(lines(smart), false)
        }),
{
    lemma_levels_differ();
    lemma_warning_is_not_critical();
}

proof fn lemma_warning_is_not_critical()
    ensures
        "warning"@ != "critical"@,
        "unknown"@ != "critical"@,
        "warning"@ != "unknown"@,
{
    reveal_strlit("unknown");
    reveal_strlit("warning");
    reveal_strlit("critical");
    assert("unknown"@.len() == 7);
    assert("warning"@.len() == 7);
    assert("critical"@.len() == 8);
    assert("unknown"@[0] == 'u' && "warning"@[0] == 'w');
}

/// The verdict on both is critical where one of them is, healthy only where both are, and
/// otherwise it is one of the two that is neither.
pub proof fn law_the_overall_verdict(a: Seq<char>, b: Seq<char>)
    ensures
        a == "critical"@ || b == "critical"@ <==> worse(a, b) == "critical"@,
        a == "ok"@ && b == "ok"@ <==> worse(a, b) == "ok"@,
        a == "ok"@ && b != "ok"@ ==> worse(a, b) == b,
        b == "ok"@ && a != "ok"@ ==> worse(a, b) == a,
{
    lemma_levels_differ();
    lemma_warning_is_not_critical();
}

/// The time for the extended test is the number in brackets on the line after the name of
/// the test, where that line speaks of the polling time.
pub proof fn law_the_declared_time_is_found(
    before: Seq<Seq<char>>,
    name: Seq<char>,
    time: Seq<char>,
    after: Seq<Seq<char>>,
    follows: bool,
    n: nat,
)
    requires
        forall|i: int|
            0 <= i < before.len() ==> !contains(
                #[trigger] before[i],
                "Extended self-test routine"@,
            ),
        before.len() > 0 || !follows,
        follows ==> !contains(before[0], "recommended polling time"@),
        contains(name, "Extended self-test routine"@),
        contains(time, "recommended polling time"@),
        !contains(time, "Extended self-test routine"@),
        bracketed(time) matches Some(v) && whole_number(trim(v), 0xffff_ffff) == Some(n),
    ensures
        declared_minutes(before + seq![name, time] + after, follows) == n,
        declared_minutes(before, follows) == 0,
    decreases before.len(),
{
    let all = before + seq![name, time] + after;
    if before.len() == 0 {
        assert(all.first() == name);
        let rest = all.drop_first();
        assert(rest.first() == time);
        assert(declared_minutes(rest, true) == n);
    } else {
        let less = before.drop_first();
        assert(all.first() == before[0]);
        assert(before.first() == before[0]);
        assert(all.drop_first() =~= less + seq![name, time] + after);
        assert forall|i: int| 0 <= i < less.len() implies !contains(
            #[trigger] less[i],
            "Extended self-test routine"@,
        ) by {
            assert(less[i] == before[i + 1]);
        }
        law_the_declared_time_is_found(less, name, time, after, false, n);
    }
}

/// What stands in brackets is what is between the first opening one and the first closing
/// one.
pub proof fn law_what_stands_in_brackets(front: Seq<char>, inner: Seq<char>, back: Seq<char>)
    requires
        !front.contains('(') && !front.contains(')'),
        !inner.contains(')'),
    ensures
        bracketed(front + seq!['('] + inner + seq![')'] + back) == Some(inner),
        bracketed(front) is None,
{
    let line = front + seq!['('] + inner + seq![')'] + back;
    reveal_strlit("(");
    reveal_strlit(")");
    assert("("@ =~= seq!['(']);
    assert(")"@ =~= seq![')']);
    assert(line =~= front + seq!['('] + (inner + seq![')'] + back));
    law_the_first_character_is_found(front, '(', inner + seq![')'] + back);
    let x = front + seq!['('] + inner;
    assert(!x.contains(')')) by {
        if x.contains(')') {
            let k = choose|k: int| 0 <= k < x.len() && x[k] == ')';
            if k < front.len() {
                assert(front[k] == ')');
            } else if k > front.len() {
                assert(inner[k - front.len() - 1] == ')');
            }
        }
    }
    law_the_first_character_is_found(x, ')', back);
    assert(line =~= x + seq![')'] + back);
    assert(line.subrange(front.len() as int + 1, x.len() as int) =~= inner);
}

/// A check ends in one way: with a report at its place, stopped, or with what went wrong.
pub proof fn law_a_check_ends_in_one_way(
    r: DeepCheckResult,
    path: Seq<char>,
    code: Seq<char>,
    detail: Seq<char>,
)
    ensures
        r.is_saved(path) <==> r.success && !r.cancelled && r.error is None && r.saved_path@ == path,
        r.is_cancelled() <==> !r.success && r.cancelled && r.error is None && r.saved_path@.len()
            == 0,
        r.failed_with(code, detail) ==> !r.success && !r.cancelled && r.saved_path@.len() == 0
            && r.error is Some && r.error->0.code@ == code && r.error->0.detail@ == detail,
        !(r.is_saved(path) && r.is_cancelled()),
        !(r.is_saved(path) && r.failed_with(code, detail)),
        !(r.is_cancelled() && r.failed_with(code, detail)),
{
}

} // verus!
