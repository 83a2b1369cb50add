//! Linux: the health tool is driven by a script that runs as administrator.
//!
//! What the script works on arrives as arguments, and what it has to say comes
//! back on its output. The report is saved by this side, as the user.
use vstd::prelude::*;
use vstd::slice::slice_subrange;
use vstd::string::StringExecFns;

use super::{
    diagnose, is_verdict, worse, DeepCheckResult, DeepCheckStarted, DiagnosisResult,
};
use crate::error::{lemma_words_wanted, without_number, CmdError, Fault};
use crate::sys::linux::{join_rel, joined};
use crate::text::number::{
    hex_chars, hex_fixed, is_digit, is_digit_char, number_of, signed_decimal, signed_string,
    whole_number,
};
use crate::text::search::{
    contains, find, find_in, law_every_place_is_replaced, law_the_first_character_is_found,
    law_the_first_place_is_found, lemma_find_from, occurs_at, replace, replaced, rfind, rfind_in,
    lemma_rfind_to,
    starts_with, str_starts_with, trim, trimmed,
};
use crate::text::{
    chars_of, is_alphanumeric, is_alphanumeric_char, join2, join3, join4, lossy_text, opt_text,
    reads, string_of, utf8_lossy,
};

verus! {

/// What stands between two marks: behind the first of one, before the first of
/// the other after it. Nothing where one of them is missing.
pub open spec fn section(text: Seq<char>, start: Seq<char>, end: Seq<char>) -> Seq<char> {
    match find(text, start) {
        Some(s) => {
            let after = text.skip(s + start.len());
            match find(after, end) {
                Some(e) => after.take(e),
                None => Seq::empty(),
            }
        },
        None => Seq::empty(),
    }
}

/// What stands between two marks.
fn extract_section(text: &[char], start: &str, end: &str) -> (r: String)
    ensures
        r@ == section(text@, start@, end@),
{
    let from = chars_of(start);
    let to = chars_of(end);
    proof {
        lemma_find_from(text@, start@, 0);
    }
    let all: usize = text.len();
    let n: usize = from.len();
    match find_in(text, &from) {
        Some(s) => {
            assert(s + n <= all);
            let after = slice_subrange(text, s + n, all);
            assert(after@ =~= text@.skip(s + start@.len()));
            proof {
                lemma_find_from(after@, end@, 0);
            }
            match find_in(after, &to) {
                Some(e) => {
                    let inside = slice_subrange(after, 0, e);
                    assert(inside@ =~= after@.take(e as int));
                    string_of(inside)
                },
                None => String::new(),
            }
        },
        None => String::new(),
    }
}

/// A name that nobody else can work out in advance, from a number that nobody
/// else can: sixteen hexadecimal digits.
pub fn random_token(number: u64) -> (r: String)
    ensures
        r@ == hex_fixed(number as nat, 16),
{
    string_of(&hex_chars(number, 16))
}

/// The name of a script.
pub fn script_name(prefix: &str, token: &str) -> (r: String)
    ensures
        r@ == prefix@ + "-"@ + token@ + ".sh"@,
{
    join4(prefix, "-", token, ".sh")
}

/// The folder where a script that will run as administrator can wait: inside the
/// session's own folder where there is one, otherwise inside the user's cache.
pub open spec fn private_place(runtime: Option<Seq<char>>, home: Option<Seq<char>>) -> Seq<char> {
    let base = match runtime {
        Some(dir) => dir,
        None => joined(
            match home {
                Some(h) => h,
                None => "."@,
            },
            ".cache"@,
        ),
    };
    joined(base, "geminus"@)
}

/// The folder where a script that will run as administrator can wait. The
/// session's folder is given with whether it is there.
pub fn private_dir(runtime: Option<(String, bool)>, home: Option<String>) -> (r: String)
    ensures
        r@ == private_place(
            match runtime {
                Some((dir, true)) => Some(dir@),
                _ => None,
            },
            opt_text(home),
        ),
{
    proof {
        reveal_strlit(".cache");
        reveal_strlit("geminus");
    }
    match runtime {
        Some((dir, true)) => join_rel(&dir, "geminus"),
        _ => {
            let h: String = match home {
                Some(h) => h,
                None => ".".to_owned(),
            };
            let base = join_rel(&h, ".cache");
            join_rel(&base, "geminus")
        },
    }
}

/// How long a script stays behind at most, in seconds: a day is well past the
/// longest test that a disk declares.
pub const A_DAY: u64 = 86400;

/// Whether a file was left behind by a check that did not survive, from its age
/// in seconds where that is known.
pub fn is_stale(age: Option<u64>) -> (r: bool)
    ensures
        r == (age matches Some(secs) && secs > A_DAY),
{
    match age {
        Some(secs) => secs > A_DAY,
        None => false,
    }
}

/// How a run of the script ended.
#[derive(Debug)]
pub struct ToolRun {
    /// It ended well.
    pub success: bool,
    /// Its exit code, where it has one.
    pub code: Option<i32>,
    /// What it printed.
    pub stdout: Vec<u8>,
    /// What it complained about.
    pub stderr: Vec<u8>,
}

/// The exit code of a run; a run without one has a negative one.
pub open spec fn code_of(code: Option<i32>) -> int {
    match code {
        Some(c) => c as int,
        None => -1,
    }
}

/// The user refused: the prompt was dismissed, or the right was not granted.
pub open spec fn refused(code: Option<i32>) -> bool {
    code == Some(126i32) || code == Some(127i32)
}

/// Whether the user refused.
fn is_refused(code: Option<i32>) -> (r: bool)
    ensures
        r == refused(code),
{
    match code {
        Some(c) => c == 126 || c == 127,
        None => false,
    }
}

/// What the script printed for the first disk.
pub open spec fn report_a(stdout: Seq<char>) -> Seq<char> {
    section(stdout, "===SMART_A===\n"@, "===END_SMART_A==="@)
}

/// What the script printed for the second disk.
pub open spec fn report_b(stdout: Seq<char>) -> Seq<char> {
    section(stdout, "===SMART_B===\n"@, "===END_SMART_B==="@)
}

/// The diagnosis that a finished run stands for.
pub open spec fn is_diagnosis(
    r: Result<DiagnosisResult, CmdError>,
    dev_a: Seq<char>,
    dev_b: Seq<char>,
    success: bool,
    code: Option<i32>,
    stdout: Seq<char>,
    stderr: Seq<char>,
) -> bool {
    match r {
        Ok(d) => success && is_verdict(d.disk_a, dev_a, report_a(stdout)) && is_verdict(
            d.disk_b,
            dev_b,
            report_b(stdout),
        ) && d.overall_level@ == worse(d.disk_a.level@, d.disk_b.level@),
        Err(e) => !success && if refused(code) {
            e.says("auth_dismissed"@, Seq::empty())
        } else {
            e.says("diagnosis_failed"@, trim(stderr))
        },
    }
}

/// The diagnosis of two disks, from how the script ended and what it printed.
pub fn diagnosis_from(
    dev_a: &str,
    dev_b: &str,
    success: bool,
    code: Option<i32>,
    stdout: &str,
    stderr: &str,
) -> (r: Result<DiagnosisResult, CmdError>)
    ensures
        is_diagnosis(r, dev_a@, dev_b@, success, code, stdout@, stderr@),
{
    if !success {
        if is_refused(code) {
            return Err(CmdError::plain("auth_dismissed"));
        }
        let said = chars_of(stderr);
        return Err(CmdError::with_detail("diagnosis_failed", string_of(trimmed(&said))));
    }
    let printed = chars_of(stdout);
    let smart_a = extract_section(&printed, "===SMART_A===\n", "===END_SMART_A===");
    let smart_b = extract_section(&printed, "===SMART_B===\n", "===END_SMART_B===");
    Ok(diagnose(dev_a, &smart_a, dev_b, &smart_b))
}

/// The diagnosis of two disks, from the run of the script.
pub fn run_disk_diagnosis(dev_a: &str, dev_b: &str, run: Result<ToolRun, Fault<String>>) -> (r:
    Result<DiagnosisResult, CmdError>)
    ensures
        match run {
            Ok(out) => is_diagnosis(
                r,
                dev_a@,
                dev_b@,
                out.success,
                out.code,
                lossy_text(out.stdout@),
                lossy_text(out.stderr@),
            ),
            Err(f) => r matches Err(e) && e.says("diagnosis_failed"@, without_number(f.text@)),
        },
{
    match run {
        Ok(out) => {
            let stdout = utf8_lossy(&out.stdout);
            let stderr = utf8_lossy(&out.stderr);
            diagnosis_from(dev_a, dev_b, out.success, out.code, &stdout, &stderr)
        },
        Err(f) => {
            proof {
                reveal_strlit("diagnosis_failed");
                lemma_words_wanted("diagnosis_failed"@);
            }
            Err(CmdError::from_words("diagnosis_failed", &f.text))
        },
    }
}

/// The folder for downloads: what the desktop says, unless it says nothing or the
/// home folder itself; otherwise the usual name inside the home folder.
pub open spec fn downloads(home: Seq<char>, said: Option<Seq<char>>) -> Seq<char> {
    match said {
        Some(s) => if trim(s).len() > 0 && trim(s) != home {
            trim(s)
        } else {
            home + "/Downloads"@
        },
        None => home + "/Downloads"@,
    }
}

/// The folder for downloads, from what the desktop said.
pub fn downloads_from(home: &str, said: Option<&str>) -> (r: String)
    ensures
        r@ == downloads(
            home@,
            match said {
                Some(s) => Some(s@),
                None => None,
            },
        ),
{
    match said {
        Some(s) => {
            let chars = chars_of(s);
            let path = trimmed(&chars);
            if path.len() > 0 && !reads(path, home) {
                return string_of(path);
            }
        },
        None => {},
    }
    join2(home, "/Downloads")
}

/// The folder for downloads, from the home folder and from what the desktop
/// printed where it could be asked and ended well.
pub fn resolve_downloads_dir(home: Option<String>, printed: Option<Vec<u8>>) -> (r: String)
    ensures
        r@ == downloads(
            match home {
                Some(h) => h@,
                None => "/tmp"@,
            },
            match printed {
                Some(bytes) => Some(lossy_text(bytes@)),
                None => None,
            },
        ),
{
    let h: String = match home {
        Some(h) => h,
        None => "/tmp".to_owned(),
    };
    match printed {
        Some(bytes) => {
            let said = utf8_lossy(&bytes);
            downloads_from(&h, Some(said.as_str()))
        },
        None => downloads_from(&h, None),
    }
}

/// A text without the slashes at its end.
pub open spec fn without_slashes(s: Seq<char>) -> Seq<char>
    decreases s.len(),
{
    if s.len() > 0 && s.last() == '/' {
        without_slashes(s.drop_last())
    } else {
        s
    }
}

/// A character that may stand in the name of a file.
pub open spec fn safe(c: char) -> char {
    if is_alphanumeric(c) || c == '_' || c == '-' {
        c
    } else {
        '_'
    }
}

/// A text of characters that may stand in the name of a file, and never empty.
pub open spec fn label_of(base: Seq<char>) -> Seq<char> {
    if base.len() == 0 {
        "disk"@
    } else {
        Seq::new(base.len(), |i: int| safe(base[i]))
    }
}

/// A text of characters that may stand in the name of a file.
pub(crate) fn make_label(base: &[char]) -> (r: String)
    ensures
        r@ == label_of(base@),
{
    let n: usize = base.len();
    if n == 0 {
        return "disk".to_owned();
    }
    let mut out: Vec<char> = Vec::new();
    for i in 0..n
        invariant
            n == base@.len(),
            out@.len() == i,
            forall|k: int| 0 <= k < i ==> #[trigger] out@[k] == safe(base@[k]),
    {
        let c: char = base[i];
        if is_alphanumeric_char(c) || c == '_' || c == '-' {
            out.push(c);
        } else {
            out.push('_');
        }
    }
    assert(out@ =~= label_of(base@));
    string_of(&out)
}

/// The last name of a mount point, slashes at the end aside.
pub open spec fn mount_base(mount: Seq<char>) -> Seq<char> {
    let path = without_slashes(mount);
    match rfind(path, "/"@) {
        Some(i) => path.skip(i + 1),
        None => path,
    }
}

/// A name for the report that says which disk it is about.
pub fn sanitize_label(mount_path: &str) -> (r: String)
    ensures
        r@ == label_of(mount_base(mount_path@)),
{
    let chars = chars_of(mount_path);
    let mut path: &[char] = &chars;
    while path.len() > 0 && path[path.len() - 1] == '/'
        invariant
            without_slashes(mount_path@) == without_slashes(path@),
        decreases path@.len(),
    {
        let shorter = slice_subrange(path, 0, path.len() - 1);
        assert(shorter@ =~= path@.drop_last());
        path = shorter;
    }
    let slash = chars_of("/");
    proof {
        reveal_strlit("/");
        lemma_rfind_to(path@, "/"@, path@.len() - "/"@.len());
    }
    let n: usize = path.len();
    match rfind_in(path, &slash) {
        Some(i) => {
            assert(i < n);
            let base = slice_subrange(path, i + 1, n);
            assert(base@ =~= path@.skip(i + 1));
            make_label(base)
        },
        None => make_label(path),
    }
}

/// The digits of a text.
pub open spec fn digits(s: Seq<char>) -> Seq<char>
    decreases s.len(),
{
    if s.len() == 0 {
        Seq::empty()
    } else if is_digit(s.last()) {
        digits(s.drop_last()).push(s.last())
    } else {
        digits(s.drop_last())
    }
}

/// The moment a test ended, reduced to its digits: date and time of day.
pub open spec fn stamp(when: Seq<char>) -> Seq<char> {
    let d = digits(when);
    if d.len() >= 14 {
        d.subrange(0, 8) + "_"@ + d.subrange(8, 14)
    } else {
        "unknown"@
    }
}

/// The name of a report: neutral, because it lives on the disk long after the
/// session.
pub open spec fn report_name(label: Seq<char>, stamp: Seq<char>) -> Seq<char> {
    "geminus_health_"@ + label + "_"@ + stamp + ".txt"@
}

/// The text of a report: the opening in the user's language, with the moment
/// filled in, and what the tool printed.
pub open spec fn report_text(header: Seq<char>, when: Seq<char>, body: Seq<char>) -> Seq<char> {
    replace(header, "{date}"@, when) + "\n\n"@ + body
}

/// The moment a test ended, reduced to its digits.
fn make_stamp(when: &str) -> (r: String)
    ensures
        r@ == stamp(when@),
{
    let chars = chars_of(when);
    let n: usize = chars.len();
    let mut d: Vec<char> = Vec::new();
    assert(digits(chars@.take(0)) =~= d@);
    for i in 0..n
        invariant
            n == chars@.len(),
            d@ == digits(chars@.take(i as int)),
    {
        assert(chars@.take(i as int + 1).drop_last() =~= chars@.take(i as int));
        assert(chars@.take(i as int + 1).last() == chars@[i as int]);
        let c: char = chars[i];
        if is_digit_char(c) {
            d.push(c);
        }
    }
    assert(chars@.take(n as int) =~= chars@);
    if d.len() >= 14 {
        let day = string_of(slice_subrange(&d, 0, 8));
        let time = string_of(slice_subrange(&d, 8, 14));
        join3(&day, "_", &time)
    } else {
        "unknown".to_owned()
    }
}

/// The name of a report.
pub(crate) fn make_report_name(label: &str, stamp: &str) -> (r: String)
    ensures
        r@ == report_name(label@, stamp@),
{
    let mut name = join4("geminus_health_", label, "_", stamp);
    name.append(".txt");
    name
}

/// The text of a report.
pub(crate) fn make_report_text(header: &str, when: &str, body: &str) -> (r: String)
    ensures
        r@ == report_text(header@, when@, body@),
{
    let chars = chars_of(header);
    let mark = chars_of("{date}");
    let moment = chars_of(when);
    proof {
        reveal_strlit("{date}");
    }
    let opening = string_of(&replaced(&chars, &mark, &moment));
    join3(&opening, "\n\n", body)
}

/// What the script prints right before the report.
pub const REPORT_MARK: &'static str = "===GEMINUS-REPORT===";

/// What is to be done next in an extended check.
#[derive(Debug, Clone, Copy, PartialEq, Eq, Structural)]
pub enum DeepStage {
    /// Start the script as administrator.
    Spawn,
    /// Take hold of its output.
    Output,
    /// Read the next line of it.
    Read,
    /// Wait for it to end.
    Wait,
    /// Save the report.
    Save,
    /// Nothing: the check is over.
    Ended,
}

/// What an extended check hears.
#[derive(Debug)]
pub enum DeepReply<S> {
    /// The script was started.
    Spawned,
    /// The script could not be started.
    SpawnFailed(Fault<S>),
    /// Whether its output is there.
    Output(bool),
    /// A line of it.
    Line(S),
    /// There are no more lines.
    NoMoreLines,
    /// It could not be waited for.
    WaitFailed(Fault<S>),
    /// It ended: whether well, with which code, and whether the user had stopped
    /// it.
    Exited(bool, Option<i32>, bool),
    /// The report was saved.
    Saved,
    /// The report could not be saved.
    SaveFailed(Fault<S>),
}

/// How an extended check ended, as a mathematical value.
pub enum DeepEnd {
    /// The user stopped it.
    Cancelled,
    /// It failed with this key and these words.
    Failed(Seq<char>, Seq<char>),
    /// The report is at this place.
    Saved(Seq<char>),
}

/// A result says how a check ended.
pub open spec fn tells(result: Option<DeepCheckResult>, end: Option<DeepEnd>) -> bool {
    match end {
        Some(DeepEnd::Cancelled) => result matches Some(r) && r.is_cancelled(),
        Some(DeepEnd::Failed(code, detail)) => result matches Some(r) && r.failed_with(
            code,
            detail,
        ),
        Some(DeepEnd::Saved(path)) => result matches Some(r) && r.is_saved(path),
        None => result is None,
    }
}

/// An extended check on its way.
#[derive(Debug)]
pub struct DeepCheck {
    device: String,
    place: String,
    label: String,
    header: String,
    finished_at: String,
    body: String,
    in_report: bool,
    stage: DeepStage,
}

/// An extended check as a mathematical value.
pub struct DeepModel {
    /// The disk.
    pub device: Seq<char>,
    /// The folder for the report.
    pub place: Seq<char>,
    /// The name of the disk in the name of the report.
    pub label: Seq<char>,
    /// The opening of the report.
    pub header: Seq<char>,
    /// When the test ended.
    pub finished_at: Seq<char>,
    /// What the report says.
    pub body: Seq<char>,
    /// The report has begun.
    pub in_report: bool,
    /// What is to be done next.
    pub stage: DeepStage,
}

/// What goes out after a step, as a mathematical value.
pub struct DeepNews {
    /// The check began, and takes so many minutes.
    pub minutes: Option<nat>,
    /// The script and its sentinel are to be removed.
    pub cleanup: bool,
    /// The check is over.
    pub end: Option<DeepEnd>,
}

/// What goes out after a step.
#[derive(Debug)]
pub struct DeepOut {
    /// The check began.
    pub started: Option<DeepCheckStarted>,
    /// The script and its sentinel are to be removed.
    pub cleanup: bool,
    /// The check is over.
    pub result: Option<DeepCheckResult>,
}

impl DeepOut {
    /// This is what goes out.
    pub open spec fn tells(self, device: Seq<char>, news: DeepNews) -> bool {
        &&& match news.minutes {
            Some(n) => self.started matches Some(s) && s.device@ == device && s.estimated_minutes
                == n,
            None => self.started is None,
        }
        &&& self.cleanup == news.cleanup
        &&& tells(self.result, news.end)
    }
}

impl DeepReply<String> {
    /// What was heard, with its texts as sequences of characters.
    pub open spec fn model(self) -> DeepReply<Seq<char>> {
        match self {
            DeepReply::Spawned => DeepReply::Spawned,
            DeepReply::SpawnFailed(f) => DeepReply::SpawnFailed(f.model()),
            DeepReply::Output(b) => DeepReply::Output(b),
            DeepReply::Line(s) => DeepReply::Line(s@),
            DeepReply::NoMoreLines => DeepReply::NoMoreLines,
            DeepReply::WaitFailed(f) => DeepReply::WaitFailed(f.model()),
            DeepReply::Exited(s, c, x) => DeepReply::Exited(s, c, x),
            DeepReply::Saved => DeepReply::Saved,
            DeepReply::SaveFailed(f) => DeepReply::SaveFailed(f.model()),
        }
    }
}

/// Nothing goes out.
pub open spec fn no_news() -> DeepNews {
    DeepNews { minutes: None, cleanup: false, end: None }
}

/// The check is over.
pub open spec fn deep_over(m: DeepModel, cleanup: bool, end: DeepEnd) -> (DeepModel, DeepNews) {
    (
        DeepModel { stage: DeepStage::Ended, ..m },
        DeepNews { minutes: None, cleanup, end: Some(end) },
    )
}

/// The check after a line of the script: before the mark come the two facts that
/// are needed while waiting, and everything after it is the report.
pub open spec fn line_next(m: DeepModel, line: Seq<char>) -> (DeepModel, DeepNews) {
    if m.in_report {
        (DeepModel { body: m.body + line + "\n"@, ..m }, no_news())
    } else if trim(line) == REPORT_MARK@ {
        (DeepModel { in_report: true, ..m }, no_news())
    } else if "ESTIMATED:"@.is_prefix_of(line) {
        (
            m,
            DeepNews {
                minutes: whole_number(
                    trim(line.skip("ESTIMATED:"@.len() as int)),
                    u32::MAX as nat,
                ),
                ..no_news()
            },
        )
    } else if "WHEN:"@.is_prefix_of(line) {
        (DeepModel { finished_at: trim(line.skip("WHEN:"@.len() as int)), ..m }, no_news())
    } else {
        (m, no_news())
    }
}

/// Why a check that ended by itself has no report to save, if it has none.
pub open spec fn exit_end(m: DeepModel, success: bool, code: Option<i32>, cancelled: bool) -> Option<
    DeepEnd,
> {
    if cancelled {
        Some(DeepEnd::Cancelled)
    } else if !success {
        if refused(code) {
            Some(DeepEnd::Failed("auth_dismissed"@, Seq::empty()))
        } else {
            Some(DeepEnd::Failed("deep_check_failed"@, "exit "@ + signed_decimal(code_of(code))))
        }
    } else if trim(m.body).len() == 0 {
        Some(DeepEnd::Failed("deep_check_no_report"@, Seq::empty()))
    } else {
        None
    }
}

/// Where the report goes.
pub open spec fn report_path(m: DeepModel) -> Seq<char> {
    joined(m.place, report_name(m.label, stamp(m.finished_at)))
}

/// The check after a reply, and what goes out.
pub open spec fn deep_next(m: DeepModel, reply: DeepReply<Seq<char>>) -> (DeepModel, DeepNews) {
    match reply {
        DeepReply::Spawned => (DeepModel { stage: DeepStage::Output, ..m }, no_news()),
        DeepReply::SpawnFailed(f) => deep_over(
            m,
            true,
            DeepEnd::Failed("deep_check_failed"@, without_number(f.text)),
        ),
        DeepReply::Output(true) => (DeepModel { stage: DeepStage::Read, ..m }, no_news()),
        DeepReply::Output(false) => deep_over(
            m,
            true,
            DeepEnd::Failed("deep_check_failed"@, Seq::empty()),
        ),
        DeepReply::Line(line) => line_next(m, line),
        DeepReply::NoMoreLines => (DeepModel { stage: DeepStage::Wait, ..m }, no_news()),
        DeepReply::WaitFailed(f) => deep_over(
            m,
            true,
            DeepEnd::Failed("deep_check_failed"@, without_number(f.text)),
        ),
        DeepReply::Exited(success, code, cancelled) => match exit_end(m, success, code, cancelled) {
            Some(end) => deep_over(m, true, end),
            None => (
                DeepModel { stage: DeepStage::Save, ..m },
                DeepNews { cleanup: true, ..no_news() },
            ),
        },
        DeepReply::Saved => deep_over(m, false, DeepEnd::Saved(report_path(m))),
        DeepReply::SaveFailed(f) => deep_over(
            m,
            false,
            DeepEnd::Failed("report_not_saved"@, without_number(f.text)),
        ),
    }
}

/// The reply answers what was asked.
pub open spec fn deep_takes(stage: DeepStage, reply: DeepReply<Seq<char>>) -> bool {
    match stage {
        DeepStage::Spawn => reply is Spawned || reply is SpawnFailed,
        DeepStage::Output => reply is Output,
        DeepStage::Read => reply is Line || reply is NoMoreLines,
        DeepStage::Wait => reply is WaitFailed || reply is Exited,
        DeepStage::Save => reply is Saved || reply is SaveFailed,
        DeepStage::Ended => false,
    }
}

/// A check that is to begin.
pub open spec fn deep_start(
    device: Seq<char>,
    mount_path: Seq<char>,
    header: Seq<char>,
    place: Seq<char>,
) -> DeepModel {
    DeepModel {
        device,
        place,
        label: label_of(mount_base(mount_path)),
        header,
        finished_at: Seq::empty(),
        body: Seq::empty(),
        in_report: false,
        stage: DeepStage::Spawn,
    }
}

/// Whether a disk can be checked at all: only a device node is one.
pub fn check_device(device: &str) -> (r: Result<(), CmdError>)
    ensures
        match r {
            Ok(_) => "/dev/"@.is_prefix_of(device@),
            Err(e) => !"/dev/"@.is_prefix_of(device@) && e.says("invalid_device"@, Seq::empty()),
        },
{
    if !str_starts_with(device, "/dev/") {
        return Err(CmdError::plain("invalid_device"));
    }
    Ok(())
}

impl DeepCheck {
    /// The check as a mathematical value.
    pub closed spec fn model(&self) -> DeepModel {
        DeepModel {
            device: self.device@,
            place: self.place@,
            label: self.label@,
            header: self.header@,
            finished_at: self.finished_at@,
            body: self.body@,
            in_report: self.in_report,
            stage: self.stage,
        }
    }

    /// An extended check of a disk, whose report goes to the given folder. Only a
    /// device node is one.
    pub fn run_deep_check(device: &str, mount_path: &str, header: &str, place: String) -> (r: Result<
        Self,
        CmdError,
    >)
        ensures
            match r {
                Ok(c) => "/dev/"@.is_prefix_of(device@) && c.model() == deep_start(
                    device@,
                    mount_path@,
                    header@,
                    place@,
                ),
                Err(e) => !"/dev/"@.is_prefix_of(device@) && e.says(
                    "invalid_device"@,
                    Seq::empty(),
                ),
            },
    {
        if let Err(e) = check_device(device) {
            return Err(e);
        }
        Ok(
            DeepCheck {
                device: device.to_owned(),
                place,
                label: sanitize_label(mount_path),
                header: header.to_owned(),
                finished_at: String::new(),
                body: String::new(),
                in_report: false,
                stage: DeepStage::Spawn,
            },
        )
    }

    /// What is to be done next.
    pub fn stage(&self) -> (r: DeepStage)
        ensures
            r == self.model().stage,
    {
        self.stage
    }

    /// Whether a reply answers what was asked.
    pub fn accepts(&self, reply: &DeepReply<String>) -> (r: bool)
        ensures
            r == deep_takes(self.model().stage, reply.model()),
    {
        match self.stage {
            DeepStage::Spawn => matches!(reply, DeepReply::Spawned) || matches!(
                reply,
                DeepReply::SpawnFailed(_)
            ),
            DeepStage::Output => matches!(reply, DeepReply::Output(_)),
            DeepStage::Read => matches!(reply, DeepReply::Line(_)) || matches!(
                reply,
                DeepReply::NoMoreLines
            ),
            DeepStage::Wait => matches!(reply, DeepReply::WaitFailed(_)) || matches!(
                reply,
                DeepReply::Exited(_, _, _)
            ),
            DeepStage::Save => matches!(reply, DeepReply::Saved) || matches!(
                reply,
                DeepReply::SaveFailed(_)
            ),
            DeepStage::Ended => false,
        }
    }

    /// Where the report goes, and what it says.
    pub fn report(&self) -> (r: (String, String))
        ensures
            r.0@ == report_path(self.model()),
            r.1@ == report_text(
                self.model().header,
                self.model().finished_at,
                self.model().body,
            ),
    {
        (
            self.place_of_report(),
            make_report_text(&self.header, &self.finished_at, &self.body),
        )
    }

    /// Where the report goes.
    fn place_of_report(&self) -> (r: String)
        ensures
            r@ == report_path(self.model()),
    {
        let moment = make_stamp(&self.finished_at);
        let name = make_report_name(&self.label, &moment);
        proof {
            reveal_strlit(".txt");
            assert(name@.len() >= 4);
        }
        join_rel(&self.place, &name)
    }

    /// The check is over.
    fn over(&mut self, cleanup: bool, result: DeepCheckResult) -> (r: DeepOut)
        ensures
            final(self).model() == (DeepModel { stage: DeepStage::Ended, ..old(self).model() }),
            r.started is None,
            r.cleanup == cleanup,
            r.result == Some(result),
    {
        self.stage = DeepStage::Ended;
        DeepOut { started: None, cleanup, result: Some(result) }
    }

    /// A line of the script.
    fn line(&mut self, line: &str) -> (r: DeepOut)
        ensures
            final(self).model() == line_next(old(self).model(), line@).0,
            r.tells(old(self).model().device, line_next(old(self).model(), line@).1),
    {
        let chars = chars_of(line);
        let n: usize = chars.len();
        let mut out = DeepOut { started: None, cleanup: false, result: None };
        if self.in_report {
            self.body.append(line);
            self.body.append("\n");
        } else if reads(trimmed(&chars), REPORT_MARK) {
            self.in_report = true;
        } else {
            let estimated = chars_of("ESTIMATED:");
            let when = chars_of("WHEN:");
            if starts_with(&chars, &estimated) {
                let rest = slice_subrange(&chars, estimated.len(), n);
                assert(rest@ =~= line@.skip("ESTIMATED:"@.len() as int));
                match number_of(trimmed(rest), u32::MAX as u64) {
                    Some(minutes) => {
                        out.started = Some(
                            DeepCheckStarted {
                                device: self.device.clone(),
                                estimated_minutes: minutes as u32,
                            },
                        );
                    },
                    None => {},
                }
            } else if starts_with(&chars, &when) {
                let rest = slice_subrange(&chars, when.len(), n);
                assert(rest@ =~= line@.skip("WHEN:"@.len() as int));
                self.finished_at = string_of(trimmed(rest));
            }
        }
        out
    }

    /// The script ended.
    fn exited(&mut self, success: bool, code: Option<i32>, cancelled: bool) -> (r: DeepOut)
        ensures
            final(self).model() == deep_next(
                old(self).model(),
                DeepReply::Exited(success, code, cancelled),
            ).0,
            r.tells(
                old(self).model().device,
                deep_next(old(self).model(), DeepReply::Exited(success, code, cancelled)).1,
            ),
    {
        if cancelled {
            return self.over(true, DeepCheckResult::stopped());
        }
        if !success {
            let e = if is_refused(code) {
                CmdError::plain("auth_dismissed")
            } else {
                let n: i64 = match code {
                    Some(c) => c as i64,
                    None => -1,
                };
                let number = signed_string(n);
                CmdError::with_detail("deep_check_failed", join2("exit ", &number))
            };
            return self.over(true, DeepCheckResult::failed(e));
        }
        let said = chars_of(&self.body);
        if trimmed(&said).len() == 0 {
            return self.over(
                true,
                DeepCheckResult::failed(CmdError::plain("deep_check_no_report")),
            );
        }
        self.stage = DeepStage::Save;
        DeepOut { started: None, cleanup: true, result: None }
    }

    /// The check after a reply, and what goes out.
    pub fn next(&mut self, reply: DeepReply<String>) -> (r: DeepOut)
        requires
            deep_takes(old(self).model().stage, reply.model()),
        ensures
            final(self).model() == deep_next(old(self).model(), reply.model()).0,
            r.tells(old(self).model().device, deep_next(old(self).model(), reply.model()).1),
    {
        proof {
            reveal_strlit("deep_check_failed");
            reveal_strlit("report_not_saved");
            lemma_words_wanted("deep_check_failed"@);
            lemma_words_wanted("report_not_saved"@);
        }
        let quiet = DeepOut { started: None, cleanup: false, result: None };
        match reply {
            DeepReply::Spawned => {
                self.stage = DeepStage::Output;
                quiet
            },
            DeepReply::SpawnFailed(f) => self.over(
                true,
                DeepCheckResult::failed(CmdError::from_words("deep_check_failed", &f.text)),
            ),
            DeepReply::Output(true) => {
                self.stage = DeepStage::Read;
                quiet
            },
            DeepReply::Output(false) => self.over(
                true,
                DeepCheckResult::failed(CmdError::plain("deep_check_failed")),
            ),
            DeepReply::Line(line) => self.line(&line),
            DeepReply::NoMoreLines => {
                self.stage = DeepStage::Wait;
                quiet
            },
            DeepReply::WaitFailed(f) => self.over(
                true,
                DeepCheckResult::failed(CmdError::from_words("deep_check_failed", &f.text)),
            ),
            DeepReply::Exited(success, code, cancelled) => self.exited(success, code, cancelled),
            DeepReply::Saved => {
                let path = self.place_of_report();
                self.over(false, DeepCheckResult::saved(path))
            },
            DeepReply::SaveFailed(f) => self.over(
                false,
                DeepCheckResult::failed(CmdError::from_words("report_not_saved", &f.text)),
            ),
        }
    }
}

/// The check after everything in a log.
pub open spec fn deep_run(m: DeepModel, log: Seq<DeepReply<Seq<char>>>) -> DeepModel
    decreases log.len(),
{
    if log.len() == 0 {
        m
    } else {
        deep_next(deep_run(m, log.drop_last()), log.last()).0
    }
}

/// Everything in the log answers what was asked at its time.
pub open spec fn deep_log(m: DeepModel, log: Seq<DeepReply<Seq<char>>>) -> bool
    decreases log.len(),
{
    log.len() == 0 || (deep_log(m, log.drop_last()) && deep_takes(
        deep_run(m, log.drop_last()).stage,
        log.last(),
    ))
}

/// A check is over exactly when it says how it ended, and it says so once: nothing
/// can follow.
pub proof fn law_a_check_ends_once(m: DeepModel, reply: DeepReply<Seq<char>>)
    requires
        deep_takes(m.stage, reply),
    ensures
        deep_next(m, reply).0.stage == DeepStage::Ended <==> deep_next(m, reply).1.end is Some,
        forall|more: DeepReply<Seq<char>>|
            deep_next(m, reply).1.end is Some ==> !#[trigger] deep_takes(
                deep_next(m, reply).0.stage,
                more,
            ),
{
}

/// A report is saved only of a check that ended well, that the user did not stop,
/// and that had something to say.
pub proof fn law_only_a_finished_check_is_saved(
    m: DeepModel,
    log: Seq<DeepReply<Seq<char>>>,
)
    requires
        m.stage == DeepStage::Spawn,
        deep_log(m, log),
        deep_run(m, log).stage == DeepStage::Save,
    ensures
        log.len() > 0,
        log.last() matches DeepReply::Exited(success, _, cancelled) && success && !cancelled,
        trim(deep_run(m, log).body).len() > 0,
{
    if log.len() > 0 {
        let before = deep_run(m, log.drop_last());
    }
}

/// A section is what stands between its two marks, wherever they stand; a text without the
/// first mark has none.
pub proof fn law_a_section_stands_between_its_marks(
    front: Seq<char>,
    start: Seq<char>,
    body: Seq<char>,
    end: Seq<char>,
    back: Seq<char>,
)
    requires
        forall|j: int|
            0 <= j < front.len() ==> #[trigger] (front + start + body + end + back).subrange(
                j,
                j + start.len(),
            ) != start,
        forall|j: int|
            0 <= j < body.len() ==> #[trigger] (body + end + back).subrange(j, j + end.len())
                != end,
    ensures
        section(front + start + body + end + back, start, end) == body,
        !contains(body, start) ==> section(body, start, end).len() == 0,
{
    let text = front + start + body + end + back;
    let n = front.len() as int;
    assert(text.subrange(n, n + start.len()) =~= start);
    law_the_first_place_is_found(text, start, n);
    let after = body + end + back;
    assert(text.skip(n + start.len()) =~= after);
    let k = body.len() as int;
    assert(after.subrange(k, k + end.len()) =~= end);
    law_the_first_place_is_found(after, end, k);
    assert(after.take(k) =~= body);
    lemma_find_from(body, start, 0);
    if let Some(i) = find(body, start) {
        assert(occurs_at(body, start, i));
    }
}

/// Each disk is judged by its own section of what the tool printed, and the worse of the
/// two decides; nothing is judged where the tool did not succeed, and a refused password
/// is told apart from a failure.
pub proof fn law_each_disk_is_judged_by_its_section(
    r: Result<DiagnosisResult, CmdError>,
    dev_a: Seq<char>,
    dev_b: Seq<char>,
    success: bool,
    code: Option<i32>,
    stdout: Seq<char>,
    stderr: Seq<char>,
)
    requires
        is_diagnosis(r, dev_a, dev_b, success, code, stdout, stderr),
    ensures
        r is Ok <==> success,
        r matches Ok(d) ==> is_verdict(
            d.disk_a,
            dev_a,
            section(stdout, "===SMART_A===\n"@, "===END_SMART_A==="@),
        ) && is_verdict(
            d.disk_b,
            dev_b,
            section(stdout, "===SMART_B===\n"@, "===END_SMART_B==="@),
        ) && d.overall_level@ == worse(d.disk_a.level@, d.disk_b.level@),
        r matches Err(e) ==> {
            &&& code == Some(126i32) || code == Some(127i32) ==> e.says(
                "auth_dismissed"@,
                Seq::empty(),
            )
            &&& code != Some(126i32) && code != Some(127i32) ==> e.says(
                "diagnosis_failed"@,
                trim(stderr),
            )
        },
{
}

/// A label that goes into the name of a file is as long as what it is made of, and holds
/// nothing but plain letters, digits, hyphens and underscores; those stay as they are.
pub proof fn law_a_label_is_safe(base: Seq<char>, i: int)
    requires
        0 <= i < base.len(),
    ensures
        ({
            let label = label_of(base);
            let plain = ('0' <= base[i] <= '9') || ('a' <= base[i] <= 'z') || ('A' <= base[i]
                <= 'Z') || base[i] == '_' || base[i] == '-';
            &&& label.len() == base.len()
            &&& plain ==> label[i] == base[i]
            &&& !plain ==> label[i] == '_'
        }),
        label_of(Seq::empty()) == "disk"@,
{
}

proof fn lemma_last_slash(before: Seq<char>, name: Seq<char>)
    requires
        !name.contains('/'),
    ensures
        rfind(before + seq!['/'] + name, "/"@) == Some(before.len() as int),
        (before + seq!['/'] + name).skip(before.len() as int + 1) == name,
{
    reveal_strlit("/");
    let path = before + seq!['/'] + name;
    let n = before.len() as int;
    lemma_rfind_to(path, "/"@, path.len() - 1);
    assert(path.subrange(n, n + 1) =~= "/"@);
    assert(occurs_at(path, "/"@, n));
    let k = rfind(path, "/"@)->0;
    if k > n {
        assert(path.subrange(k, k + 1)[0] == path[k]);
        assert(name[k - n - 1] == path[k]);
        assert(name.contains(name[k - n - 1]));
    }
    assert(path.skip(n + 1) =~= name);
}

proof fn lemma_no_slash_at_end(path: Seq<char>)
    requires
        path.len() > 0,
        path.last() != '/',
    ensures
        without_slashes(path) == path,
        without_slashes(path + seq!['/']) == path,
{
    let slashed = path + seq!['/'];
    assert(slashed.last() == '/');
    assert(slashed.drop_last() =~= path);
}

/// The label of a mount point is made of its last name, slashes at its end aside.
#[verifier::spinoff_prover]
pub proof fn law_the_last_name_is_the_label(before: Seq<char>, name: Seq<char>)
    requires
        name.len() > 0 && !name.contains('/'),
    ensures
        mount_base(before + seq!['/'] + name) == name,
        mount_base(before + seq!['/'] + name + seq!['/']) == name,
        mount_base(name) == name,
        mount_base(seq!['/']).len() == 0,
{
    let path = before + seq!['/'] + name;
    assert(name.last() != '/') by {
        assert(name.contains(name[name.len() - 1]));
    }
    assert(path.last() == name.last());
    lemma_no_slash_at_end(path);
    lemma_no_slash_at_end(name);
    lemma_last_slash(before, name);
    assert(rfind(name, "/"@) is None) by {
        reveal_strlit("/");
        assert("/"@ =~= seq!['/']);
        law_the_first_character_is_found(name, '/', Seq::empty());
    }
    assert(mount_base(seq!['/']).len() == 0) by {
        let root = seq!['/'];
        let none = Seq::<char>::empty();
        assert(root.last() == '/' && root.drop_last() =~= none);
        assert(without_slashes(none) == none);
        assert(without_slashes(root) == none);
        reveal_strlit("/");
        assert("/"@ =~= seq!['/']);
        law_the_first_character_is_found(none, '/', Seq::empty());
    }
}

/// The moment in the name of a report is made of the digits of the time: the day, an
/// underscore and the time of day. A time with too few digits is unknown.
pub proof fn law_the_stamp_is_made_of_digits(d: Seq<char>, c: char)
    requires
        forall|i: int| 0 <= i < d.len() ==> '0' <= #[trigger] d[i] <= '9',
        !('0' <= c <= '9'),
    ensures
        digits(d) == d,
        digits(d.push(c)) == d,
        d.len() >= 14 ==> stamp(d) == d.take(8) + seq!['_'] + d.subrange(8, 14),
        d.len() < 14 ==> stamp(d) == "unknown"@,
    decreases d.len(),
{
    reveal_strlit("_");
    assert("_"@ =~= seq!['_']);
    if d.len() > 0 {
        let front = d.drop_last();
        assert forall|i: int| 0 <= i < front.len() implies '0' <= #[trigger] front[i] <= '9' by {
            assert(front[i] == d[i]);
        }
        law_the_stamp_is_made_of_digits(front, c);
        assert(d[d.len() - 1] == d.last());
        assert(front.push(d.last()) =~= d);
    } else {
        assert(digits(d) =~= d);
    }
    let more = d.push(c);
    assert(more.drop_last() =~= d);
    assert(more.len() > 0 && more.last() == c && !is_digit(c));
    assert(digits(more) == digits(more.drop_last()));
    assert(digits(more) == d);
    if d.len() >= 14 {
        assert(d.take(8) =~= d.subrange(0, 8));
    }
}

/// A report begins with its header, in which the moment is filled in, and ends with what
/// the tool said; its file is named after the disk and the moment.
pub proof fn law_a_report_has_header_and_body(
    front: Seq<char>,
    back: Seq<char>,
    when: Seq<char>,
    body: Seq<char>,
    label: Seq<char>,
    moment: Seq<char>,
)
    requires
        !front.contains('{'),
    ensures
        report_text(front + "{date}"@ + back, when, body) == front + when + replace(
            back,
            "{date}"@,
            when,
        ) + seq!['\n', '\n'] + body,
        report_name(label, moment) == "geminus_health_"@ + label + seq!['_'] + moment + ".txt"@,
{
    reveal_strlit("{date}");
    reveal_strlit("\n\n");
    reveal_strlit("_");
    assert("\n\n"@ =~= seq!['\n', '\n']);
    assert("_"@ =~= seq!['_']);
    let pat = "{date}"@;
    let s = front + pat + back;
    assert forall|j: int| 0 <= j < front.len() implies #[trigger] s.subrange(j, j + pat.len())
        != pat by {
        assert(s.subrange(j, j + pat.len())[0] == front[j]);
        assert(front.contains(front[j]));
    }
    law_every_place_is_replaced(front, pat, back, when);
}

/// The report of a check is what followed the mark, line by line and nothing else; before
/// the mark a line can give the estimate or the moment of the end.
pub proof fn law_the_report_follows_the_mark(m: DeepModel, line: Seq<char>, rest: Seq<char>)
    requires
        m.stage == DeepStage::Read,
    ensures
        ({
            let (next, news) = deep_next(m, DeepReply::Line(line));
            &&& next.stage == DeepStage::Read && news.end is None && !news.cleanup
            &&& next.device == m.device && next.place == m.place && next.label == m.label
                && next.header == m.header
            &&& m.in_report ==> next.in_report && next.body == m.body + line + seq!['\n']
                && next.finished_at == m.finished_at && news.minutes is None
            &&& !m.in_report ==> next.body == m.body
            &&& !m.in_report && trim(line) == "===GEMINUS-REPORT==="@ ==> next.in_report
            &&& !m.in_report && trim(line) != "===GEMINUS-REPORT==="@ ==> !next.in_report
            &&& !m.in_report && line == "WHEN:"@ + rest && trim(line) != "===GEMINUS-REPORT==="@
                ==> next.finished_at == trim(rest) && news.minutes is None
            &&& !m.in_report && line == "ESTIMATED:"@ + rest && trim(line)
                != "===GEMINUS-REPORT==="@ ==> news.minutes == whole_number(
                trim(rest),
                0xffff_ffff,
            ) && next.finished_at == m.finished_at
        }),
{
    reveal_strlit("\n");
    reveal_strlit("WHEN:");
    reveal_strlit("ESTIMATED:");
    assert("\n"@ =~= seq!['\n']);
    let w = "WHEN:"@ + rest;
    let e = "ESTIMATED:"@ + rest;
    assert(w.take(5) =~= "WHEN:"@);
    assert(w.skip(5) =~= rest);
    assert(e.take(10) =~= "ESTIMATED:"@);
    assert(e.skip(10) =~= rest);
    if "ESTIMATED:"@.is_prefix_of(w) {
        assert(w.take(10)[0] == w[0]);
    }
}

/// How a check ended decides what is said of it, in this order: that the user stopped it,
/// that the password was refused, that it failed, that it had nothing to say. Only a
/// check of which none of this holds is saved; and whatever was left of it is cleared
/// away.
pub proof fn law_how_a_check_ended(m: DeepModel, success: bool, code: Option<i32>, cancelled: bool)
    requires
        m.stage == DeepStage::Wait,
    ensures
        ({
            let (next, news) = deep_next(m, DeepReply::Exited(success, code, cancelled));
            let refused = code == Some(126i32) || code == Some(127i32);
            let silent = trim(m.body).len() == 0;
            &&& news.cleanup
            &&& cancelled ==> news.end == Some(DeepEnd::Cancelled)
            &&& !cancelled && !success && refused ==> news.end == Some(
                DeepEnd::Failed("auth_dismissed"@, Seq::empty()),
            )
            &&& !cancelled && !success && !refused ==> (news.end matches Some(
                DeepEnd::Failed(why, _),
            ) && why == "deep_check_failed"@)
            &&& !cancelled && success && silent ==> news.end == Some(
                DeepEnd::Failed("deep_check_no_report"@, Seq::empty()),
            )
            &&& !cancelled && success && !silent <==> next.stage == DeepStage::Save && news.end
                is None
        }),
{
}

/// A check begins with its process and what that prints, and each of these can fail on its
/// own; a saved report says where it is.
pub proof fn law_a_check_goes_step_by_step(m: DeepModel, f: Fault<Seq<char>>)
    ensures
        ({
            let failed = Some(DeepEnd::Failed("deep_check_failed"@, without_number(f.text)));
            &&& deep_next(m, DeepReply::Spawned).0 == (DeepModel { stage: DeepStage::Output, ..m })
            &&& deep_next(m, DeepReply::SpawnFailed(f)).1.end == failed && deep_next(
                m,
                DeepReply::SpawnFailed(f),
            ).1.cleanup
            &&& deep_next(m, DeepReply::Output(true)).0 == (DeepModel {
                stage: DeepStage::Read,
                ..m
            })
            &&& deep_next(m, DeepReply::Output(false)).1.end is Some
            &&& deep_next(m, DeepReply::NoMoreLines).0 == (DeepModel {
                stage: DeepStage::Wait,
                ..m
            })
            &&& deep_next(m, DeepReply::WaitFailed(f)).1.end == failed && deep_next(
                m,
                DeepReply::WaitFailed(f),
            ).1.cleanup
            &&& deep_next(m, DeepReply::Saved).1.end == Some(
                DeepEnd::Saved(joined(m.place, report_name(m.label, stamp(m.finished_at)))),
            )
            &&& deep_next(m, DeepReply::SaveFailed(f)).1.end == Some(
                DeepEnd::Failed("report_not_saved"@, without_number(f.text)),
            )
        }),
{
}

/// Reports go to the folder that the system names for downloads, unless it names none or
/// the personal folder itself: then to the usual one below that.
pub proof fn law_where_downloads_go(home: Seq<char>, said: Seq<char>)
    ensures
        downloads(home, None) == home + "/Downloads"@,
        trim(said).len() == 0 || trim(said) == home ==> downloads(home, Some(said)) == home
            + "/Downloads"@,
        trim(said).len() > 0 && trim(said) != home ==> downloads(home, Some(said)) == trim(said),
{
}

/// Whatever can come is taken at its stage.
pub proof fn law_whatever_comes_is_taken(
    line: Seq<char>,
    f: Fault<Seq<char>>,
    there: bool,
    success: bool,
    code: Option<i32>,
    cancelled: bool,
)
    ensures
        deep_takes(DeepStage::Spawn, DeepReply::Spawned),
        deep_takes(DeepStage::Spawn, DeepReply::SpawnFailed(f)),
        deep_takes(DeepStage::Output, DeepReply::Output(there)),
        deep_takes(DeepStage::Read, DeepReply::Line(line)),
        deep_takes(DeepStage::Read, DeepReply::NoMoreLines),
        deep_takes(DeepStage::Wait, DeepReply::WaitFailed(f)),
        deep_takes(DeepStage::Wait, DeepReply::Exited(success, code, cancelled)),
        deep_takes(DeepStage::Save, DeepReply::Saved),
        deep_takes(DeepStage::Save, DeepReply::SaveFailed(f)),
{
}

/// A script waits in a folder of the program's own: inside the session's folder where
/// there is one, otherwise inside the cache of the user.
pub proof fn law_where_a_script_waits(dir: Seq<char>, home: Option<Seq<char>>)
    requires
        dir.len() > 0,
        dir.last() != '/',
    ensures
        private_place(Some(dir), home) == dir + "/geminus"@,
        private_place(None, Some(dir)) == dir + "/.cache/geminus"@,
        private_place(None, None) == "./.cache/geminus"@,
{
    reveal_strlit("/");
    reveal_strlit(".");
    reveal_strlit("geminus");
    reveal_strlit(".cache");
    reveal_strlit("/geminus");
    reveal_strlit("/.cache/geminus");
    reveal_strlit("./.cache/geminus");
    let cache = dir + "/.cache"@;
    reveal_strlit("/.cache");
    assert(joined(dir, "geminus"@) =~= dir + "/geminus"@);
    assert(joined(dir, ".cache"@) =~= cache);
    assert(cache.last() == 'e');
    assert(joined(cache, "geminus"@) =~= dir + "/.cache/geminus"@);
    assert(joined("."@, ".cache"@) =~= "./.cache"@) by {
        reveal_strlit("./.cache");
    }
    assert(joined("./.cache"@, "geminus"@) =~= "./.cache/geminus"@) by {
        reveal_strlit("./.cache");
    }
}

/// A report lies in the folder that was chosen, under a name that holds the label of the
/// disk and the moment.
pub proof fn law_where_a_report_goes(m: DeepModel)
    requires
        m.place.len() > 0,
        m.place.last() != '/',
    ensures
        report_path(m) == m.place + "/geminus_health_"@ + m.label + "_"@ + stamp(m.finished_at)
            + ".txt"@,
{
    reveal_strlit("/");
    reveal_strlit("geminus_health_");
    reveal_strlit("/geminus_health_");
    let name = report_name(m.label, stamp(m.finished_at));
    assert(name[0] == 'g');
    assert("/geminus_health_"@ =~= "/"@ + "geminus_health_"@);
    assert(report_path(m) =~= m.place + "/"@ + name);
}

/// A check begins with nothing heard, before its script runs, and keeps the disk, the
/// folder and the header that it was given.
pub proof fn law_a_check_begins_with_nothing(
    device: Seq<char>,
    mount_path: Seq<char>,
    header: Seq<char>,
    place: Seq<char>,
)
    ensures
        ({
            let m = deep_start(device, mount_path, header, place);
            &&& m.device == device && m.place == place && m.header == header
            &&& m.label == label_of(mount_base(mount_path))
            &&& m.finished_at.len() == 0 && m.body.len() == 0 && !m.in_report
            &&& m.stage == DeepStage::Spawn
        }),
{
}

/// A check that failed tells the exit code of its script, and one without such a code
/// tells minus one.
pub proof fn law_a_failed_check_tells_its_code(m: DeepModel, n: i32)
    requires
        n != 126 && n != 127,
    ensures
        deep_next(m, DeepReply::Exited(false, Some(n), false)).1.end == Some(
            DeepEnd::Failed("deep_check_failed"@, "exit "@ + signed_decimal(n as int)),
        ),
        deep_next(m, DeepReply::Exited(false, None, false)).1.end == Some(
            DeepEnd::Failed("deep_check_failed"@, "exit "@ + signed_decimal(-1)),
        ),
{
}

} // verus!
