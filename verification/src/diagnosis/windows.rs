//! Windows: the health tool only reaches a disk from an elevated process.
//!
//! So the program starts itself once more, hidden and elevated, and the two
//! halves meet on a channel that this one creates first. The quick read of both
//! disks asks its questions and dies. The extended check lives as long as the test
//! does: it keeps asking whether the test is over, and the closing of the channel
//! is how it learns to stop.
use vstd::prelude::*;
use vstd::slice::slice_subrange;
use vstd::string::StringExecFns;

use super::linux::{
    label_of, make_label, make_report_name, make_report_text, report_name, report_text,
};
use super::{
    bracketed, declared_minutes, diagnose, in_brackets, is_verdict, parse_extended_test_minutes,
    worse, DeepCheckResult, DeepCheckStarted, DiagnosisResult,
};
use crate::error::{lemma_words_wanted, without_number, CmdError, Fault};
use crate::sys::path::{
    last_piece, lemma_ends_with_name, plain_name, Separators,
};
use crate::sys::windows::{joined, numbered};
use crate::text::number::{
    decimal, decimal_string, digit_run, is_digit, law_a_decimal_reads_back, lemma_decimal_digits, lemma_decimal_injective,
    lemma_decimal_value, number_of, padded, padded_chars, whole_number,
};
use crate::text::search::{
    contains, find, find_in, holds, join, lemma_find_from, lemma_rfind_to, lines,
    lines_of, occurs_at, rfind, rfind_in, split, split_on, starts_with, str_starts_with, trim, trimmed,
};
use crate::text::utf16::{decoded, narrow};
use crate::text::{
    chars_of, join2, join3, join4, lossy_text, same_str, string_of, texts, utf8_lossy,
    views,
};

verus! {

/// The argument that asks for the report of some disks.
pub const HELPER_FLAG: &'static str = "--disk-report";

/// The argument that asks for the long test of a disk.
pub const LONGTEST_FLAG: &'static str = "--disk-longtest";

/// What the elevated half is to do, with the arguments that follow.
#[derive(Debug)]
pub enum HelperJob {
    /// Report on some disks.
    Report(Vec<String>),
    /// Run the long test of a disk.
    LongTest(Vec<String>),
}

/// The arguments behind the first one that reads like this.
pub open spec fn behind(args: Seq<Seq<char>>, flag: Seq<char>) -> Option<Seq<Seq<char>>>
    decreases args.len(),
{
    if args.len() == 0 {
        None
    } else if args.first() == flag {
        Some(args.drop_first())
    } else {
        behind(args.drop_first(), flag)
    }
}

/// The job that some arguments ask for.
pub open spec fn is_job(job: Option<HelperJob>, args: Seq<String>) -> bool {
    match behind(texts(args), HELPER_FLAG@) {
        Some(rest) => job matches Some(HelperJob::Report(v)) && texts(v@) == rest,
        None => match behind(texts(args), LONGTEST_FLAG@) {
            Some(rest) => job matches Some(HelperJob::LongTest(v)) && texts(v@) == rest,
            None => job is None,
        },
    }
}

/// The arguments behind the first one that reads like this.
fn find_behind(args: &Vec<String>, flag: &str) -> (r: Option<Vec<String>>)
    ensures
        match r {
            Some(v) => behind(texts(args@), flag@) == Some(texts(v@)),
            None => behind(texts(args@), flag@) is None,
        },
{
    let n: usize = args.len();
    let ghost all = texts(args@);
    assert(all.skip(0) =~= all);
    for i in 0..n
        invariant
            n == args@.len(),
            all == texts(args@),
            behind(all, flag@) == behind(all.skip(i as int), flag@),
    {
        assert(all.skip(i as int).first() == args@[i as int]@);
        assert(all.skip(i as int).drop_first() =~= all.skip(i as int + 1));
        if same_str(&args[i], flag) {
            let mut rest: Vec<String> = Vec::new();
            for k in i + 1..n
                invariant
                    n == args@.len(),
                    i < n,
                    all == texts(args@),
                    texts(rest@) == all.subrange(i + 1, k as int),
            {
                let ghost before = texts(rest@);
                rest.push(args[k].clone());
                assert(texts(rest@) =~= before.push(args@[k as int]@));
                assert(all.subrange(i + 1, k + 1) =~= all.subrange(i + 1, k as int).push(
                    all[k as int],
                ));
            }
            assert(all.subrange(i + 1, n as int) =~= all.skip(i as int + 1));
            return Some(rest);
        }
    }
    assert(all.skip(n as int) =~= Seq::<Seq<char>>::empty());
    None
}

/// The job that the arguments of a start ask for: where one of the hidden
/// arguments is there, this process is the elevated half and never becomes a
/// window.
pub fn run_helper_if_requested(args: &Vec<String>) -> (r: Option<HelperJob>)
    ensures
        is_job(r, args@),
{
    match find_behind(args, HELPER_FLAG) {
        Some(rest) => {
            return Some(HelperJob::Report(rest));
        },
        None => {},
    }
    match find_behind(args, LONGTEST_FLAG) {
        Some(rest) => Some(HelperJob::LongTest(rest)),
        None => None,
    }
}

/// What separates the answers for two disks; the tool never prints it.
pub const SECTION: &'static str = "\n===GEMINUS-DISK===\n";

/// What comes before the report of a test.
pub const REPORT_MARK: &'static str = "\n===GEMINUS-REPORT===\n";

/// What comes before the words of a test that did not work.
pub const ERROR_MARK: &'static str = "\n===GEMINUS-ERROR===\n";

/// How long the report of both disks may take, in milliseconds.
pub const HELPER_TIMEOUT_MS: u32 = 120000;

/// How often the disk is asked whether the test is over, in seconds.
pub const POLL_SECONDS: u64 = 10;

/// How long a test takes where the disk does not say, in minutes.
pub const FALLBACK_MINUTES: u32 = 60;

/// What a run of the tool answered.
#[derive(Debug)]
pub enum ToolRun {
    /// The tool is not there.
    Missing,
    /// The tool could not be run, with the words of the system.
    NotRun(String),
    /// The tool ran: what it printed, what it complained about, and its code.
    Ran(Vec<u8>, Vec<u8>, Option<i32>),
}

/// The text of an answer: what was printed, or the complaints where that says
/// nothing.
pub open spec fn tool_text(stdout: Seq<char>, stderr: Seq<char>) -> Seq<char> {
    if trim(stdout).len() == 0 {
        stderr
    } else {
        stdout
    }
}

/// The text of an answer, from what was printed and what was complained about.
pub fn answer_text(stdout: String, stderr: String) -> (r: String)
    ensures
        r@ == tool_text(stdout@, stderr@),
{
    let chars = chars_of(&stdout);
    if trimmed(&chars).len() == 0 {
        stderr
    } else {
        stdout
    }
}

/// What the tool answered, and its exit code. A failure is not an error to report
/// upwards: the text is itself the answer, and the shared reader decides what it
/// means.
pub fn run_tool(run: ToolRun) -> (r: (String, i32))
    ensures
        match run {
            ToolRun::Missing => r.0@ == "NO_DEVICE"@ && r.1 == -1,
            ToolRun::NotRun(words) => r.0@ == "NO_DEVICE ("@ + words@ + ")"@ && r.1 == -1,
            ToolRun::Ran(stdout, stderr, code) => r.0@ == tool_text(
                lossy_text(stdout@),
                lossy_text(stderr@),
            ) && r.1 == match code {
                Some(c) => c as int,
                None => -1,
            },
        },
{
    match run {
        ToolRun::Missing => ("NO_DEVICE".to_owned(), -1),
        ToolRun::NotRun(words) => (join3("NO_DEVICE (", &words, ")"), -1),
        ToolRun::Ran(stdout, stderr, code) => {
            let n: i32 = match code {
                Some(c) => c,
                None => -1,
            };
            (answer_text(utf8_lossy(&stdout), utf8_lossy(&stderr)), n)
        },
    }
}

/// The channel and the disks of a report, from the arguments of the elevated
/// half: a malformed call has no channel, and nothing is written.
pub fn report_args(args: Vec<String>) -> (r: Option<(String, Vec<String>)>)
    ensures
        match r {
            Some((channel, devices)) => args@.len() > 0 && channel@ == args@[0]@ && texts(devices@)
                == texts(args@).skip(1),
            None => args@.len() == 0,
        },
{
    let n: usize = args.len();
    if n == 0 {
        return None;
    }
    let ghost all = texts(args@);
    let mut devices: Vec<String> = Vec::new();
    for i in 1..n
        invariant
            n == args@.len(),
            n > 0,
            all == texts(args@),
            texts(devices@) == all.subrange(1, i as int),
    {
        let ghost before = texts(devices@);
        devices.push(args[i].clone());
        assert(texts(devices@) =~= before.push(args@[i as int]@));
        assert(all.subrange(1, i + 1) =~= all.subrange(1, i as int).push(all[i as int]));
    }
    assert(all.subrange(1, n as int) =~= all.skip(1));
    Some((args[0].clone(), devices))
}

/// The answers for some disks, each behind its mark.
pub open spec fn sections_of(answers: Seq<Seq<char>>) -> Seq<char>
    decreases answers.len(),
{
    if answers.len() == 0 {
        Seq::empty()
    } else {
        sections_of(answers.drop_last()) + SECTION@ + answers.last()
    }
}

/// What the elevated half writes for the report of some disks, from what the tool
/// answered for each.
pub fn read_both_disks(answers: &Vec<String>) -> (r: String)
    ensures
        r@ == sections_of(texts(answers@)),
{
    let ghost all = texts(answers@);
    let n: usize = answers.len();
    let mut out = String::new();
    assert(out@ =~= sections_of(all.take(0)));
    for i in 0..n
        invariant
            n == answers@.len(),
            all == texts(answers@),
            out@ == sections_of(all.take(i as int)),
    {
        assert(all.take(i as int + 1).drop_last() =~= all.take(i as int));
        assert(all.take(i as int + 1).last() == answers@[i as int]@);
        out.append(SECTION);
        out.append(&answers[i]);
    }
    assert(all.take(n as int) =~= all);
    out
}

/// What became of something written on a channel.
pub fn send_on_channel(opened: bool, written: bool) -> (r: Result<(), CmdError>)
    ensures
        match r {
            Ok(_) => opened && written,
            Err(e) => if !opened {
                e.says("channel_not_open"@, Seq::empty())
            } else {
                !written && e.says("channel_write_failed"@, Seq::empty())
            },
        },
{
    if !opened {
        return Err(CmdError::plain("channel_not_open"));
    }
    if written {
        Ok(())
    } else {
        Err(CmdError::plain("channel_write_failed"))
    }
}

/// Whether something was written as a whole: otherwise the other end is gone.
pub fn wrote_all(ok: bool, written: u32, len: usize) -> (r: bool)
    ensures
        r == (ok && written == len),
{
    ok && written as usize == len
}

/// The test of a disk is still going, as its status says: the number in brackets
/// is 240 or more. A status that cannot be read counts as still going.
pub open spec fn running(status: Seq<Seq<char>>) -> bool
    decreases status.len(),
{
    if status.len() == 0 {
        true
    } else {
        let line = status.first();
        let rest = status.drop_first();
        if !contains(line, "Self-test execution status"@) {
            running(rest)
        } else {
            match bracketed(line) {
                Some(v) => match whole_number(trim(v), u32::MAX as nat) {
                    Some(n) => n >= 240,
                    None => running(rest),
                },
                None => running(rest),
            }
        }
    }
}

/// Whether the test of a disk is still going.
pub fn self_test_running(status: &str) -> (r: bool)
    ensures
        r == running(lines(status@)),
{
    let chars = chars_of(status);
    let report = lines_of(&chars);
    let mark = chars_of("Self-test execution status");
    let ghost all = lines(status@);
    let n: usize = report.len();
    assert(all.skip(0) =~= all);
    for i in 0..n
        invariant
            n == report@.len(),
            all == views(report@),
            all == lines(status@),
            mark@ == "Self-test execution status"@,
            running(all) == running(all.skip(i as int)),
    {
        let line = report[i];
        assert(all.skip(i as int).first() == line@);
        assert(all.skip(i as int).drop_first() =~= all.skip(i as int + 1));
        if holds(line, &mark) {
            match in_brackets(line) {
                Some(v) => match number_of(trimmed(v), u32::MAX as u64) {
                    Some(m) => {
                        return m >= 240;
                    },
                    None => {},
                },
                None => {},
            }
        }
    }
    assert(all.skip(n as int) =~= Seq::<Seq<char>>::empty());
    true
}

/// The first line that says something, without the white space around it.
pub open spec fn telling_line(text: Seq<Seq<char>>) -> Seq<char>
    decreases text.len(),
{
    if text.len() == 0 {
        "Extended Check Did Not Start"@
    } else if trim(text.first()).len() > 0 {
        trim(text.first())
    } else {
        telling_line(text.drop_first())
    }
}

/// The first line that says something.
pub fn first_line(text: &str) -> (r: String)
    ensures
        r@ == telling_line(lines(text@)),
{
    let chars = chars_of(text);
    let report = lines_of(&chars);
    let ghost all = lines(text@);
    let n: usize = report.len();
    assert(all.skip(0) =~= all);
    for i in 0..n
        invariant
            n == report@.len(),
            all == views(report@),
            all == lines(text@),
            telling_line(all) == telling_line(all.skip(i as int)),
    {
        assert(all.skip(i as int).first() == report@[i as int]@);
        assert(all.skip(i as int).drop_first() =~= all.skip(i as int + 1));
        let line = trimmed(report[i]);
        if line.len() > 0 {
            return string_of(line);
        }
    }
    assert(all.skip(n as int) =~= Seq::<Seq<char>>::empty());
    "Extended Check Did Not Start".to_owned()
}

/// What the elevated half is to do next in the long test of a disk.
#[derive(Debug, Clone, Copy, PartialEq, Eq, Structural)]
pub enum TestStage {
    /// Open the channel.
    Open,
    /// Look for the tool.
    FindTool,
    /// Ask the tool what the disk can do.
    AskCapabilities,
    /// Write how long the disk says that it takes.
    SayEstimate,
    /// Have the tool start the test.
    Start,
    /// Sleep until the next look.
    Sleep,
    /// Write a sign of life, to learn whether the channel is still there.
    Beat,
    /// Ask the tool how the test is going.
    AskStatus,
    /// Have the tool stop the test, and nothing more: nobody is listening.
    Abort,
    /// Have the tool stop the test, which never said that it was done.
    GiveUp,
    /// Ask the tool for everything.
    AskFull,
    /// Ask the tool for the log of tests.
    AskLog,
    /// Write the last message.
    SayLast,
    /// Nothing: the elevated half is done.
    Ended,
}

/// What the long test hears.
#[derive(Debug)]
pub enum TestReply<S> {
    /// Whether the channel could be opened.
    Opened(bool),
    /// Whether the tool is there.
    Tool(bool),
    /// What the tool answered, and its exit code.
    Answer(S, i32),
    /// Whether the channel took what was written.
    Wrote(bool),
    /// The time has passed.
    Slept,
}

impl TestReply<String> {
    /// What was heard, with its texts as sequences of characters.
    pub open spec fn model(self) -> TestReply<Seq<char>> {
        match self {
            TestReply::Opened(b) => TestReply::Opened(b),
            TestReply::Tool(b) => TestReply::Tool(b),
            TestReply::Answer(s, c) => TestReply::Answer(s@, c),
            TestReply::Wrote(b) => TestReply::Wrote(b),
            TestReply::Slept => TestReply::Slept,
        }
    }
}

/// The long test of a disk, in the elevated half.
#[derive(Debug)]
pub struct LongTest {
    stage: TestStage,
    estimate: u32,
    budget: u64,
    waited: u64,
    full: String,
    last: String,
}

/// The long test as a mathematical value.
pub struct TestModel {
    /// What is to be done next.
    pub stage: TestStage,
    /// How long the disk says that it takes, in minutes; nought if it does not.
    pub estimate: u32,
    /// How long is waited for the end, in seconds.
    pub budget: u64,
    /// How long was waited, in seconds.
    pub waited: u64,
    /// Everything that the tool said at the end.
    pub full: Seq<char>,
    /// The last message.
    pub last: Seq<char>,
}

/// Only the low three bits of an exit code say that the command did not go
/// through; the others report the health of the disk, and a disk in bad shape is
/// exactly the one worth testing.
pub open spec fn not_started(code: i32) -> bool {
    code < 0 || code & 7 != 0
}

/// How long is waited for a test, in seconds: twice what the disk says.
pub open spec fn budget_for(estimate: u32) -> int {
    if estimate > 0 {
        estimate * 120
    } else {
        FALLBACK_MINUTES * 120
    }
}

/// The message of a test that was gone through.
pub open spec fn test_report(full: Seq<char>, log: Seq<char>) -> Seq<char> {
    REPORT_MARK@ + "=== smartctl -a ===\n"@ + full + "\n=== smartctl -l selftest ===\n"@ + log
}

/// A test that is to begin.
pub open spec fn test_start() -> TestModel {
    TestModel {
        stage: TestStage::Open,
        estimate: 0,
        budget: 0,
        waited: 0,
        full: Seq::empty(),
        last: Seq::empty(),
    }
}

/// The same test at another stage.
pub open spec fn test_at(m: TestModel, stage: TestStage) -> TestModel {
    TestModel { stage, ..m }
}

/// The last message, and then the end.
pub open spec fn saying(m: TestModel, last: Seq<char>) -> TestModel {
    TestModel { stage: TestStage::SayLast, last, ..m }
}

/// The test after an answer of the tool. The first status is not trusted to end
/// anything: a disk that has not started yet still reports the test before.
pub open spec fn answer_next(m: TestModel, text: Seq<char>, code: i32) -> TestModel {
    match m.stage {
        TestStage::AskCapabilities => TestModel {
            stage: TestStage::SayEstimate,
            estimate: declared_minutes(lines(text), false) as u32,
            ..m
        },
        TestStage::Start => if not_started(code) {
            saying(m, ERROR_MARK@ + telling_line(lines(text)))
        } else {
            TestModel { stage: TestStage::Sleep, budget: budget_for(m.estimate) as u64, ..m }
        },
        TestStage::AskStatus => if m.waited > POLL_SECONDS && !running(lines(text)) {
            test_at(m, TestStage::AskFull)
        } else if m.waited < m.budget {
            test_at(m, TestStage::Sleep)
        } else {
            test_at(m, TestStage::GiveUp)
        },
        TestStage::Abort => test_at(m, TestStage::Ended),
        TestStage::GiveUp => test_at(m, TestStage::AskFull),
        TestStage::AskFull => TestModel { stage: TestStage::AskLog, full: text, ..m },
        _ => saying(m, test_report(m.full, text)),
    }
}

/// The test after a reply.
pub open spec fn test_next(m: TestModel, reply: TestReply<Seq<char>>) -> TestModel {
    match reply {
        TestReply::Opened(opened) => if opened {
            test_at(m, TestStage::FindTool)
        } else {
            test_at(m, TestStage::Ended)
        },
        TestReply::Tool(there) => if there {
            test_at(m, TestStage::AskCapabilities)
        } else {
            saying(m, ERROR_MARK@ + "tool not available"@)
        },
        TestReply::Answer(text, code) => answer_next(m, text, code),
        TestReply::Wrote(taken) => match m.stage {
            TestStage::SayEstimate => if taken {
                test_at(m, TestStage::Start)
            } else {
                test_at(m, TestStage::Ended)
            },
            TestStage::Beat => if taken {
                test_at(m, TestStage::AskStatus)
            } else {
                test_at(m, TestStage::Abort)
            },
            _ => test_at(m, TestStage::Ended),
        },
        TestReply::Slept => TestModel {
            stage: TestStage::Beat,
            waited: (m.waited + POLL_SECONDS) as u64,
            ..m
        },
    }
}

/// The reply answers what was asked.
pub open spec fn test_takes(m: TestModel, reply: TestReply<Seq<char>>) -> bool {
    &&& m.waited < m.budget + POLL_SECONDS && m.budget <= u32::MAX * 120
    &&& m.stage == TestStage::Sleep ==> m.waited < m.budget
    &&& match m.stage {
        TestStage::Open => reply is Opened,
        TestStage::FindTool => reply is Tool,
        TestStage::SayEstimate | TestStage::Beat | TestStage::SayLast => reply is Wrote,
        TestStage::Sleep => reply is Slept,
        TestStage::Ended => false,
        _ => reply is Answer,
    }
}

/// What is written at a stage.
pub open spec fn message_at(m: TestModel) -> Seq<char> {
    match m.stage {
        TestStage::SayEstimate => "EST:"@ + decimal(m.estimate as nat) + "\n"@,
        TestStage::Beat => "."@,
        _ => m.last,
    }
}

impl LongTest {
    /// The test as a mathematical value.
    pub closed spec fn model(&self) -> TestModel {
        TestModel {
            stage: self.stage,
            estimate: self.estimate,
            budget: self.budget,
            waited: self.waited,
            full: self.full@,
            last: self.last@,
        }
    }

    /// A test that is to begin, from the arguments of the elevated half: the
    /// channel first, then the disk. A malformed call begins nothing.
    pub fn run_long_test(args: &Vec<String>) -> (r: Option<(Self, String, String)>)
        ensures
            match r {
                Some((test, channel, device)) => args@.len() >= 2 && test.model() == test_start()
                    && channel@ == args@[0]@ && device@ == args@[1]@,
                None => args@.len() < 2,
            },
    {
        if args.len() < 2 {
            return None;
        }
        let test = LongTest {
            stage: TestStage::Open,
            estimate: 0,
            budget: 0,
            waited: 0,
            full: String::new(),
            last: String::new(),
        };
        Some((test, args[0].clone(), args[1].clone()))
    }

    /// What is to be done next.
    pub fn stage(&self) -> (r: TestStage)
        ensures
            r == self.model().stage,
    {
        self.stage
    }

    /// What is to be written now.
    pub fn message(&self) -> (r: String)
        ensures
            r@ == message_at(self.model()),
    {
        match self.stage {
            TestStage::SayEstimate => {
                let n = decimal_string(self.estimate as u64);
                join3("EST:", &n, "\n")
            },
            TestStage::Beat => ".".to_owned(),
            _ => self.last.clone(),
        }
    }

    /// Whether a reply answers what was asked.
    pub fn accepts(&self, reply: &TestReply<String>) -> (r: bool)
        ensures
            r == test_takes(self.model(), reply.model()),
    {
        let fits = self.budget <= 515396075400 && self.waited < self.budget + POLL_SECONDS;
        let awake = !matches!(self.stage, TestStage::Sleep) || self.waited < self.budget;
        fits && awake && match self.stage {
            TestStage::Open => matches!(reply, TestReply::Opened(_)),
            TestStage::FindTool => matches!(reply, TestReply::Tool(_)),
            TestStage::SayEstimate | TestStage::Beat | TestStage::SayLast => matches!(
                reply,
                TestReply::Wrote(_)
            ),
            TestStage::Sleep => matches!(reply, TestReply::Slept),
            TestStage::Ended => false,
            _ => matches!(reply, TestReply::Answer(_, _)),
        }
    }

    /// An answer of the tool.
    fn answer(&mut self, text: String, code: i32)
        requires
            test_takes(old(self).model(), TestReply::Answer(text@, code)),
        ensures
            final(self).model() == answer_next(old(self).model(), text@, code),
    {
        match self.stage {
            TestStage::AskCapabilities => {
                self.estimate = parse_extended_test_minutes(&text);
                self.stage = TestStage::SayEstimate;
            },
            TestStage::Start => {
                if code < 0 || code & 7 != 0 {
                    let line = first_line(&text);
                    self.last = join2(ERROR_MARK, &line);
                    self.stage = TestStage::SayLast;
                } else {
                    let minutes: u32 = if self.estimate > 0 {
                        self.estimate
                    } else {
                        FALLBACK_MINUTES
                    };
                    self.budget = minutes as u64 * 120;
                    self.stage = TestStage::Sleep;
                }
            },
            TestStage::AskStatus => {
                if self.waited > POLL_SECONDS && !self_test_running(&text) {
                    self.stage = TestStage::AskFull;
                } else if self.waited < self.budget {
                    self.stage = TestStage::Sleep;
                } else {
                    self.stage = TestStage::GiveUp;
                }
            },
            TestStage::Abort => {
                self.stage = TestStage::Ended;
            },
            TestStage::GiveUp => {
                self.stage = TestStage::AskFull;
            },
            TestStage::AskFull => {
                self.full = text;
                self.stage = TestStage::AskLog;
            },
            _ => {
                let mut last = join4(
                    REPORT_MARK,
                    "=== smartctl -a ===\n",
                    &self.full,
                    "\n=== smartctl -l selftest ===\n",
                );
                last.append(&text);
                self.last = last;
                self.stage = TestStage::SayLast;
            },
        }
    }

    /// The test after a reply.
    pub fn next(&mut self, reply: TestReply<String>)
        requires
            test_takes(old(self).model(), reply.model()),
        ensures
            final(self).model() == test_next(old(self).model(), reply.model()),
    {
        match reply {
            TestReply::Opened(opened) => {
                if opened {
                    self.stage = TestStage::FindTool;
                } else {
                    self.stage = TestStage::Ended;
                }
            },
            TestReply::Tool(there) => {
                if there {
                    self.stage = TestStage::AskCapabilities;
                } else {
                    self.last = join2(ERROR_MARK, "tool not available");
                    self.stage = TestStage::SayLast;
                }
            },
            TestReply::Answer(text, code) => {
                self.answer(text, code);
            },
            TestReply::Wrote(taken) => match self.stage {
                TestStage::SayEstimate => {
                    if taken {
                        self.stage = TestStage::Start;
                    } else {
                        self.stage = TestStage::Ended;
                    }
                },
                TestStage::Beat => {
                    if taken {
                        self.stage = TestStage::AskStatus;
                    } else {
                        self.stage = TestStage::Abort;
                    }
                },
                _ => {
                    self.stage = TestStage::Ended;
                },
            },
            TestReply::Slept => {
                self.waited = self.waited + POLL_SECONDS;
                self.stage = TestStage::Beat;
            },
        }
    }
}

/// The test after everything in a log.
pub open spec fn test_run(m: TestModel, log: Seq<TestReply<Seq<char>>>) -> TestModel
    decreases log.len(),
{
    if log.len() == 0 {
        m
    } else {
        test_next(test_run(m, log.drop_last()), log.last())
    }
}

/// Every reply in the log is one to what was asked at its time.
pub open spec fn test_log(m: TestModel, log: Seq<TestReply<Seq<char>>>) -> bool
    decreases log.len(),
{
    log.len() == 0 || (test_log(m, log.drop_last()) && test_takes(
        test_run(m, log.drop_last()),
        log.last(),
    ))
}

/// A test never waits for ever: it is given up once the budget is spent, which is
/// twice what the disk declares, and what is asked of it can always be answered.
pub proof fn law_a_test_never_waits_for_ever(log: Seq<TestReply<Seq<char>>>)
    requires
        test_log(test_start(), log),
    ensures
        ({
            let m = test_run(test_start(), log);
            &&& m.waited < m.budget + POLL_SECONDS
            &&& m.budget <= u32::MAX * 120
            &&& m.stage == TestStage::Sleep ==> m.waited < m.budget
            &&& m.budget != 0 ==> m.budget == budget_for(m.estimate)
        }),
    decreases log.len(),
{
    if log.len() > 0 {
        law_a_test_never_waits_for_ever(log.drop_last());
        lemma_budget_set_late(log);
        lemma_budget_set_late(log.drop_last());
    }
}

/// Nothing was waited for, and nothing is known of the budget, before the test
/// was started.
proof fn lemma_budget_set_late(log: Seq<TestReply<Seq<char>>>)
    requires
        test_log(test_start(), log),
    ensures
        ({
            let m = test_run(test_start(), log);
            m.stage == TestStage::Open || m.stage == TestStage::FindTool || m.stage
                == TestStage::AskCapabilities || m.stage == TestStage::SayEstimate || m.stage
                == TestStage::Start ==> m.budget == 0 && m.waited == 0
        }),
    decreases log.len(),
{
    if log.len() > 0 {
        lemma_budget_set_late(log.drop_last());
    }
}

/// Losing the channel while waiting stops the test in the disk and ends the
/// elevated half without another word.
pub proof fn law_a_lost_channel_stops_the_test(m: TestModel, text: Seq<char>, code: i32)
    requires
        m.stage == TestStage::Beat,
    ensures
        test_next(m, TestReply::Wrote(false)).stage == TestStage::Abort,
        test_next(test_next(m, TestReply::Wrote(false)), TestReply::Answer(text, code)).stage
            == TestStage::Ended,
{
}

/// The name of a channel: one for each request, so that two of them never meet.
pub open spec fn channel_of(pid: nat, seq: nat) -> Seq<char> {
    "\\\\.\\pipe\\geminus-disk-"@ + decimal(pid) + "-"@ + decimal(seq)
}

/// The name of a channel.
pub fn channel_name(pid: u32, seq: u32) -> (r: String)
    ensures
        r@ == channel_of(pid as nat, seq as nat),
{
    let run = decimal_string(pid as u64);
    let number = decimal_string(seq as u64);
    join4("\\\\.\\pipe\\geminus-disk-", &run, "-", &number)
}

/// Two requests of one session never share a channel.
pub proof fn law_requests_never_meet(pid: nat, a: nat, b: nat)
    requires
        a != b,
    ensures
        channel_of(pid, a) != channel_of(pid, b),
{
    if channel_of(pid, a) == channel_of(pid, b) {
        let front = "\\\\.\\pipe\\geminus-disk-"@ + decimal(pid) + "-"@;
        let n = front.len() as int;
        assert(channel_of(pid, a).skip(n) =~= decimal(a));
        assert(channel_of(pid, b).skip(n) =~= decimal(b));
        lemma_decimal_injective(a, b);
    }
}

/// Whether the listening end of a channel could be created.
pub fn create_channel(created: bool) -> (r: Result<(), CmdError>)
    ensures
        match r {
            Ok(_) => created,
            Err(e) => !created && e.says("channel_not_created"@, Seq::empty()),
        },
{
    if created {
        Ok(())
    } else {
        Err(CmdError::plain("channel_not_created"))
    }
}

/// The arguments that turn the program into its elevated half.
pub fn elevated_args(flag: &str, channel: &str, devices: &Vec<String>) -> (r: String)
    ensures
        r@ == flag@ + " "@ + channel@ + " "@ + join(texts(devices@), " "@),
{
    let ghost all = texts(devices@);
    let n: usize = devices.len();
    let mut list = String::new();
    assert(list@ =~= join(all.take(0), " "@));
    for i in 0..n
        invariant
            n == devices@.len(),
            all == texts(devices@),
            list@ == join(all.take(i as int), " "@),
    {
        assert(all.take(i as int + 1).drop_last() =~= all.take(i as int));
        assert(all.take(i as int + 1).last() == devices@[i as int]@);
        if i > 0 {
            list.append(" ");
        } else {
            assert(list@ =~= Seq::<char>::empty());
        }
        list.append(&devices[i]);
        assert(list@ =~= join(all.take(i as int + 1), " "@));
    }
    assert(all.take(n as int) =~= all);
    let mut out = join4(flag, " ", channel, " ");
    out.append(&list);
    out
}

/// What became of the attempt to start the elevated half.
#[derive(Debug, Clone, Copy, PartialEq, Eq, Structural)]
pub enum Launch {
    /// It runs.
    Running,
    /// The user refused.
    Refused,
    /// The system failed with this number.
    Failed(u32),
    /// The system did not hand its process over.
    NoProcess,
}

/// What follows the attempt to start the elevated half. A refusal is not a failure
/// to report as one.
pub fn launch_elevated(launch: Launch) -> (r: Result<(), CmdError>)
    ensures
        match r {
            Ok(_) => launch == Launch::Running,
            Err(e) => match launch {
                Launch::Running => false,
                Launch::Refused => e.says("auth_dismissed"@, Seq::empty()),
                Launch::Failed(n) => e.says("elevation_failed"@, numbered(n as int)),
                Launch::NoProcess => e.says("elevation_failed"@, Seq::empty()),
            },
        },
{
    match launch {
        Launch::Running => Ok(()),
        Launch::Refused => Err(CmdError::plain("auth_dismissed")),
        Launch::Failed(n) => {
            let number = decimal_string(n as u64);
            Err(CmdError::with_detail("elevation_failed", join2("Windows error ", &number)))
        },
        Launch::NoProcess => Err(CmdError::plain("elevation_failed")),
    }
}

/// What a channel gave.
#[derive(Debug)]
pub enum PipeRead {
    /// Bytes that the other end wrote; none where there are none right now.
    Bytes(Vec<u8>),
    /// The other end closed it: everything it wrote was read.
    Closed,
    /// Nobody has dialed in.
    Listening,
    /// There is nothing to read yet.
    NoData,
    /// The system failed with this number.
    Failed(u32),
}

/// What is read of the elevated half that reports on some disks.
#[derive(Debug)]
pub struct ReportRead {
    /// What was read.
    pub raw: Vec<u8>,
}

/// What follows a read of the report of some disks: nothing while more may come.
pub open spec fn report_end(read: PipeRead, code: u32) -> Option<Result<(), (Seq<char>, Seq<char>)>> {
    match read {
        PipeRead::Bytes(b) => if b@.len() == 0 {
            Some(Ok(()))
        } else {
            None
        },
        PipeRead::Closed => Some(Ok(())),
        PipeRead::Listening => Some(
            Err(("elevated_step_failed"@, "exit "@ + decimal(code as nat))),
        ),
        PipeRead::NoData => Some(Err(("channel_read_failed"@, numbered(232)))),
        PipeRead::Failed(n) => Some(Err(("channel_read_failed"@, numbered(n as int)))),
    }
}

/// A result says what follows.
pub open spec fn result_says<T>(
    r: Option<Result<T, CmdError>>,
    want: Option<Result<(), (Seq<char>, Seq<char>)>>,
) -> bool {
    match want {
        None => r is None,
        Some(Ok(_)) => r matches Some(Ok(_)),
        Some(Err(why)) => r matches Some(Err(e)) && e.says(why.0, why.1),
    }
}

impl ReportRead {
    /// Nothing was read yet: the elevated half has to have ended in time.
    pub fn new(ended: bool) -> (r: Result<Self, CmdError>)
        ensures
            match r {
                Ok(v) => ended && v.raw@.len() == 0,
                Err(e) => !ended && e.says("diagnosis_timed_out"@, Seq::empty()),
            },
    {
        if ended {
            Ok(ReportRead { raw: Vec::new() })
        } else {
            Err(CmdError::plain("diagnosis_timed_out"))
        }
    }

    /// What was read once more, with the code that the elevated half ended with.
    pub fn next(&mut self, read: PipeRead, code: u32) -> (r: Option<Result<(), CmdError>>)
        ensures
            result_says(r, report_end(read, code)),
            final(self).raw@ == match read {
                PipeRead::Bytes(b) => old(self).raw@ + b@,
                _ => old(self).raw@,
            },
    {
        match read {
            PipeRead::Bytes(b) => {
                let n: usize = b.len();
                let ghost before = self.raw@;
                for i in 0..n
                    invariant
                        n == b@.len(),
                        self.raw@ == before + b@.take(i as int),
                {
                    self.raw.push(b[i]);
                    assert(b@.take(i as int + 1) =~= b@.take(i as int).push(b@[i as int]));
                }
                assert(b@.take(n as int) =~= b@);
                if n == 0 {
                    Some(Ok(()))
                } else {
                    None
                }
            },
            PipeRead::Closed => Some(Ok(())),
            PipeRead::Listening => {
                let number = decimal_string(code as u64);
                Some(
                    Err(CmdError::with_detail("elevated_step_failed", join2("exit ", &number))),
                )
            },
            PipeRead::NoData => Some(Err(read_failed(232))),
            PipeRead::Failed(n) => Some(Err(read_failed(n))),
        }
    }
}

/// A read that the system refused, by the number of its error.
fn read_failed(n: u32) -> (r: CmdError)
    ensures
        r.says("channel_read_failed"@, numbered(n as int)),
{
    let number = decimal_string(n as u64);
    CmdError::with_detail("channel_read_failed", join2("Windows error ", &number))
}

/// The answers for so many disks, from what the elevated half wrote: what is
/// missing at the end is empty, and what is too much is left out.
pub open spec fn answers_in(text: Seq<char>, count: nat) -> Seq<Seq<char>> {
    let pieces = split(text, SECTION@);
    Seq::new(
        count,
        |i: int|
            if i + 1 < pieces.len() {
                pieces[i + 1]
            } else {
                Seq::empty()
            },
    )
}

/// The answers for so many disks, from what the elevated half wrote.
pub fn sections(text: &str, count: usize) -> (r: Vec<String>)
    ensures
        texts(r@) == answers_in(text@, count as nat),
{
    let chars = chars_of(text);
    let mark = chars_of(SECTION);
    proof {
        reveal_strlit("\n===GEMINUS-DISK===\n");
    }
    let pieces = split_on(&chars, &mark);
    let n: usize = pieces.len();
    let mut out: Vec<String> = Vec::new();
    for i in 0..count
        invariant
            n == pieces@.len(),
            n >= 1,
            views(pieces@) == split(text@, SECTION@),
            out@.len() == i,
            forall|k: int|
                0 <= k < i ==> (#[trigger] out@[k])@ == answers_in(text@, count as nat)[k],
    {
        if i < n - 1 {
            assert(views(pieces@)[i + 1] == pieces@[i + 1]@);
            out.push(string_of(pieces[i + 1]));
        } else {
            out.push(String::new());
        }
    }
    assert(texts(out@) =~= answers_in(text@, count as nat));
    out
}

/// The answers for so many disks, from the bytes that the elevated half wrote.
pub fn ask_elevated(raw: &Vec<u8>, count: usize) -> (r: Vec<String>)
    ensures
        texts(r@) == answers_in(lossy_text(raw@), count as nat),
{
    let text = utf8_lossy(raw);
    sections(&text, count)
}

/// The number behind the last mark of a physical drive, or the whole text where
/// there is none.
pub open spec fn drive_part(device: Seq<char>) -> Seq<char> {
    match rfind(device, "PhysicalDrive"@) {
        Some(i) => device.skip(i + "PhysicalDrive"@.len()),
        None => device,
    }
}

/// The name that the tool uses for a disk: it has its own numbering, which lines
/// up with that of the system, disk by disk.
pub open spec fn tool_device(device: Seq<char>) -> Seq<char> {
    match whole_number(drive_part(device), u32::MAX as nat) {
        Some(n) => if n < 26 {
            "/dev/sd"@ + seq![(97u8 + n as u8) as char]
        } else {
            device
        },
        None => device,
    }
}

/// The name that the tool uses for a disk.
pub fn tool_name(device: &str) -> (r: String)
    ensures
        r@ == tool_device(device@),
{
    let chars = chars_of(device);
    let mark = chars_of("PhysicalDrive");
    let all: usize = chars.len();
    let skip: usize = mark.len();
    proof {
        lemma_rfind_to(device@, "PhysicalDrive"@, device@.len() - "PhysicalDrive"@.len());
    }
    let part: &[char] = match rfind_in(&chars, &mark) {
        Some(i) => {
            assert(i + skip <= all);
            let rest = slice_subrange(&chars, i + skip, all);
            assert(rest@ =~= device@.skip(i + "PhysicalDrive"@.len()));
            rest
        },
        None => &chars,
    };
    match number_of(part, u32::MAX as u64) {
        Some(n) => {
            if n < 26 {
                let letter: char = (97u8 + n as u8) as char;
                let one: [char; 1] = [letter];
                assert(one@ =~= seq![letter]);
                let l = string_of(&one);
                return join2("/dev/sd", &l);
            }
            device.to_owned()
        },
        None => device.to_owned(),
    }
}

/// The disks that the tool is asked about: two folders on one disk are one disk,
/// and what could not be resolved is not asked for.
pub open spec fn wanted(dev_a: Seq<char>, dev_b: Seq<char>) -> Seq<Seq<char>> {
    let first = if dev_a.len() > 0 {
        seq![tool_device(dev_a)]
    } else {
        Seq::empty()
    };
    if dev_b.len() > 0 && dev_a != dev_b {
        first.push(tool_device(dev_b))
    } else {
        first
    }
}

/// The disks that the tool is asked about.
pub fn wanted_disks(dev_a: &str, dev_b: &str) -> (r: Vec<String>)
    ensures
        texts(r@) == wanted(dev_a@, dev_b@),
{
    let mut out: Vec<String> = Vec::new();
    if !dev_a.is_empty() {
        out.push(tool_name(dev_a));
    }
    if !dev_b.is_empty() && !same_str(dev_a, dev_b) {
        out.push(tool_name(dev_b));
    }
    assert(texts(out@) =~= wanted(dev_a@, dev_b@));
    out
}

/// What was answered for the first disk.
pub open spec fn answer_a(dev_a: Seq<char>, answers: Seq<Seq<char>>) -> Seq<char> {
    if dev_a.len() > 0 && answers.len() > 0 {
        answers[0]
    } else {
        Seq::empty()
    }
}

/// What was answered for the second disk.
pub open spec fn answer_b(dev_a: Seq<char>, dev_b: Seq<char>, answers: Seq<Seq<char>>) -> Seq<char> {
    if dev_b.len() == 0 {
        Seq::empty()
    } else if dev_a == dev_b {
        answer_a(dev_a, answers)
    } else {
        let i: int = if dev_a.len() == 0 {
            0
        } else {
            1
        };
        if i < answers.len() {
            answers[i]
        } else {
            Seq::empty()
        }
    }
}

/// The answer with the given number, or nothing.
fn nth_answer(answers: &Vec<String>, i: usize) -> (r: String)
    ensures
        r@ == (if i < answers@.len() {
            texts(answers@)[i as int]
        } else {
            Seq::empty()
        }),
{
    if i < answers.len() {
        answers[i].clone()
    } else {
        String::new()
    }
}

/// The diagnosis of two disks, from what the elevated half answered for those that
/// it was asked about.
pub fn run_disk_diagnosis(dev_a: &str, dev_b: &str, answers: Result<Vec<String>, CmdError>) -> (r:
    Result<DiagnosisResult, CmdError>)
    ensures
        match answers {
            Ok(v) => r matches Ok(d) && is_verdict(
                d.disk_a,
                dev_a@,
                answer_a(dev_a@, texts(v@)),
            ) && is_verdict(d.disk_b, dev_b@, answer_b(dev_a@, dev_b@, texts(v@)))
                && d.overall_level@ == worse(d.disk_a.level@, d.disk_b.level@),
            Err(e) => r matches Err(f) && f == e,
        },
{
    let list = match answers {
        Ok(v) => v,
        Err(e) => {
            return Err(e);
        },
    };
    let report_a = if dev_a.is_empty() {
        String::new()
    } else {
        nth_answer(&list, 0)
    };
    let report_b = if dev_b.is_empty() {
        String::new()
    } else if same_str(dev_a, dev_b) {
        report_a.clone()
    } else if dev_a.is_empty() {
        nth_answer(&list, 0)
    } else {
        nth_answer(&list, 1)
    };
    Ok(diagnose(dev_a, &report_a, dev_b, &report_b))
}

/// Each disk gets the answer that was given for it, whether both were asked about,
/// one of them, or one for both.
pub proof fn law_each_disk_gets_its_answer(dev_a: Seq<char>, dev_b: Seq<char>, answers: Seq<Seq<char>>)
    requires
        answers.len() == wanted(dev_a, dev_b).len(),
    ensures
        dev_a.len() > 0 ==> answer_a(dev_a, answers) == answers[0],
        dev_b.len() > 0 && dev_b == dev_a ==> answer_b(dev_a, dev_b, answers) == answers[0],
        dev_b.len() > 0 && dev_b != dev_a ==> answer_b(dev_a, dev_b, answers) == answers.last(),
        dev_a.len() == 0 ==> answer_a(dev_a, answers).len() == 0,
        dev_b.len() == 0 ==> answer_b(dev_a, dev_b, answers).len() == 0,
{
}

/// A mark on a line of its own.
spec fn own_line(mark: Seq<char>, core: Seq<char>) -> bool {
    &&& core.len() > 0
    &&& mark == seq!['\n'] + core + seq!['\n']
    &&& forall|i: int| 0 <= i < core.len() ==> #[trigger] core[i] != '\n'
}

/// The first place where a mark stands is where it was put, as long as what comes
/// before it does not hold the words of the mark.
proof fn lemma_first_mark(front: Seq<char>, rest: Seq<char>, mark: Seq<char>, core: Seq<char>)
    requires
        own_line(mark, core),
        !contains(front, core),
    ensures
        find(front + mark + rest, mark) == Some(front.len() as int),
{
    let text = front + mark + rest;
    let n = front.len() as int;
    assert(text.subrange(n, n + mark.len()) =~= mark);
    assert(occurs_at(text, mark, n));
    assert forall|i: int| 0 <= i < n implies !occurs_at(text, mark, i) by {
        if occurs_at(text, mark, i) {
            let inside = text.subrange(i, i + mark.len());
            assert(inside == mark);
            assert forall|j: int| 0 <= j < core.len() implies #[trigger] text[i + 1 + j]
                == core[j] by {
                assert(inside[j + 1] == mark[j + 1]);
            }
            if i + 1 + core.len() <= n {
                assert(front.subrange(i + 1, i + 1 + core.len()) =~= core) by {
                    assert forall|j: int| 0 <= j < core.len() implies front[i + 1 + j] == core[j] by {
                        assert(text[i + 1 + j] == core[j]);
                    }
                }
                assert(occurs_at(front, core, i + 1));
            } else {
                assert(text[n] == '\n');
                let j = n - i - 1;
                assert(0 <= j < core.len());
                assert(text[i + 1 + j] == core[j]);
            }
        }
    }
    lemma_find_from(text, mark, 0);
}

proof fn lemma_no_mark(front: Seq<char>, mark: Seq<char>, core: Seq<char>)
    requires
        own_line(mark, core),
        !contains(front, core),
    ensures
        find(front, mark) is None,
{
    lemma_find_from(front, mark, 0);
    if find(front, mark) is Some {
        let i = find(front, mark)->0;
        assert(occurs_at(front, mark, i));
        let inside = front.subrange(i, i + mark.len());
        assert(front.subrange(i + 1, i + 1 + core.len()) =~= core) by {
            assert forall|j: int| 0 <= j < core.len() implies front[i + 1 + j] == core[j] by {
                assert(inside[j + 1] == mark[j + 1]);
            }
        }
        assert(occurs_at(front, core, i + 1));
    }
}

proof fn lemma_section_mark()
    ensures
        own_line(SECTION@, "===GEMINUS-DISK==="@),
{
    reveal_strlit("\n===GEMINUS-DISK===\n");
    reveal_strlit("===GEMINUS-DISK===");
    assert(SECTION@ =~= seq!['\n'] + "===GEMINUS-DISK==="@ + seq!['\n']);
}

proof fn lemma_report_mark()
    ensures
        own_line(REPORT_MARK@, "===GEMINUS-REPORT==="@),
{
    reveal_strlit("\n===GEMINUS-REPORT===\n");
    reveal_strlit("===GEMINUS-REPORT===");
    assert(REPORT_MARK@ =~= seq!['\n'] + "===GEMINUS-REPORT==="@ + seq!['\n']);
}

proof fn lemma_sections_front(answers: Seq<Seq<char>>)
    requires
        answers.len() > 0,
    ensures
        sections_of(answers) == SECTION@ + answers[0] + sections_of(answers.skip(1)),
    decreases answers.len(),
{
    let rest = answers.skip(1);
    if answers.len() == 1 {
        assert(answers.drop_last() =~= Seq::<Seq<char>>::empty());
        assert(rest =~= Seq::<Seq<char>>::empty());
        assert(sections_of(answers) =~= SECTION@ + answers[0] + sections_of(rest));
    } else {
        lemma_sections_front(answers.drop_last());
        assert(answers.drop_last().skip(1) =~= rest.drop_last());
        assert(rest.last() == answers.last());
        assert(answers.drop_last()[0] == answers[0]);
        assert(sections_of(answers) =~= SECTION@ + answers[0] + sections_of(rest));
    }
}

proof fn lemma_split_sections(first: Seq<char>, answers: Seq<Seq<char>>)
    requires
        !contains(first, "===GEMINUS-DISK==="@),
        forall|i: int|
            0 <= i < answers.len() ==> !contains(#[trigger] answers[i], "===GEMINUS-DISK==="@),
    ensures
        split(first + sections_of(answers), SECTION@) == seq![first] + answers,
    decreases answers.len(),
{
    lemma_section_mark();
    let core = "===GEMINUS-DISK==="@;
    if answers.len() == 0 {
        assert(first + sections_of(answers) =~= first);
        lemma_no_mark(first, SECTION@, core);
        assert(seq![first] + answers =~= seq![first]);
    } else {
        let rest = answers.skip(1);
        lemma_sections_front(answers);
        let tail = answers[0] + sections_of(rest);
        let text = first + sections_of(answers);
        assert(text =~= first + SECTION@ + tail);
        lemma_first_mark(first, tail, SECTION@, core);
        assert(text.take(first.len() as int) =~= first);
        assert(text.skip((first.len() + SECTION@.len()) as int) =~= tail);
        assert forall|i: int| 0 <= i < rest.len() implies !contains(#[trigger] rest[i], core) by {
            assert(rest[i] == answers[i + 1]);
        }
        lemma_split_sections(answers[0], rest);
        assert(seq![first] + answers =~= seq![first] + (seq![answers[0]] + rest));
    }
}

/// What the elevated half writes for some disks is read back answer by answer, as
/// long as no answer holds the words of the mark.
pub proof fn law_answers_come_through(answers: Seq<Seq<char>>)
    requires
        forall|i: int|
            0 <= i < answers.len() ==> !contains(#[trigger] answers[i], "===GEMINUS-DISK==="@),
    ensures
        answers_in(sections_of(answers), answers.len()) == answers,
{
    let empty = Seq::<char>::empty();
    reveal_strlit("===GEMINUS-DISK===");
    assert(!contains(empty, "===GEMINUS-DISK==="@));
    lemma_split_sections(empty, answers);
    assert(empty + sections_of(answers) =~= sections_of(answers));
    assert(answers_in(sections_of(answers), answers.len()) =~= answers);
}

/// The report of a test is read back as it was written, whatever was written before
/// it, as long as that does not hold the words of the mark.
pub proof fn law_the_report_comes_through(before: Seq<char>, full: Seq<char>, log: Seq<char>)
    requires
        !contains(before, "===GEMINUS-REPORT==="@),
    ensures
        ending(before + test_report(full, log)) == Ending::Report(
            "=== smartctl -a ===\n"@ + full + "\n=== smartctl -l selftest ===\n"@ + log,
        ),
{
    lemma_report_mark();
    let body = "=== smartctl -a ===\n"@ + full + "\n=== smartctl -l selftest ===\n"@ + log;
    let text = before + test_report(full, log);
    assert(text =~= before + REPORT_MARK@ + body);
    lemma_first_mark(before, body, REPORT_MARK@, "===GEMINUS-REPORT==="@);
    assert(text.skip((before.len() + REPORT_MARK@.len()) as int) =~= body);
}

proof fn lemma_all_digits_run(s: Seq<char>)
    requires
        forall|i: int| 0 <= i < s.len() ==> is_digit(#[trigger] s[i]),
    ensures
        digit_run(s) == s.len(),
    decreases s.len(),
{
    if s.len() > 0 {
        assert(is_digit(s[0]));
        let rest = s.drop_first();
        assert forall|i: int| 0 <= i < rest.len() implies is_digit(#[trigger] rest[i]) by {
            assert(rest[i] == s[i + 1]);
        }
        lemma_all_digits_run(rest);
    }
}

/// The estimate that the elevated half writes first is read back as soon as its
/// line is whole, whatever follows.
pub proof fn law_the_estimate_comes_through(m: TestModel, more: Seq<char>)
    requires
        m.stage == TestStage::SayEstimate,
    ensures
        estimate(message_at(m) + more) == Some(m.estimate as nat),
{
    reveal_strlit("EST:");
    reveal_strlit("\n");
    let number = decimal(m.estimate as nat);
    let text = message_at(m) + more;
    let n = 4 + number.len();
    lemma_decimal_digits(m.estimate as nat);
    lemma_decimal_value(m.estimate as nat);
    lemma_all_digits_run(number);
    assert(text.subrange(n as int, n as int + 1) =~= "\n"@);
    assert(occurs_at(text, "\n"@, n as int));
    assert forall|i: int| 0 <= i < n implies !occurs_at(text, "\n"@, i) by {
        if occurs_at(text, "\n"@, i) {
            assert(text.subrange(i, i + 1)[0] == '\n');
            assert(text[i] == '\n');
            if i >= 4 {
                assert(text[i] == number[i - 4]);
                assert(is_digit(number[i - 4]));
            } else {
                assert(text[i] == "EST:"@[i]);
            }
        }
    }
    lemma_find_from(text, "\n"@, 0);
    let line = text.take(n as int);
    assert(line =~= "EST:"@ + number);
    assert(line.take(4) =~= "EST:"@);
    assert(line.skip(4) =~= number);
    assert(is_digit(number.first()));
    assert(is_digit(number.last())) by {
        assert(number[number.len() - 1] == number.last());
    }
    assert(trim(number) == number);
}

/// How the extended check ended, seen from this half.
#[derive(Debug)]
pub enum Outcome {
    /// This is the report.
    Report(String),
    /// The user stopped it.
    Cancelled,
    /// It failed.
    Failed(CmdError),
}

/// How a check ended, as a mathematical value.
pub enum Ending {
    /// This is the report.
    Report(Seq<char>),
    /// The user stopped it.
    Cancelled,
    /// It failed with this key and these words.
    Failed(Seq<char>, Seq<char>),
}

impl Outcome {
    /// This is how the check ended.
    pub open spec fn tells(self, end: Ending) -> bool {
        match end {
            Ending::Report(body) => self matches Outcome::Report(s) && s@ == body,
            Ending::Cancelled => self is Cancelled,
            Ending::Failed(code, detail) => self matches Outcome::Failed(e) && e.says(code, detail),
        }
    }
}

/// How long the test takes, from what the elevated half wrote so far: its first
/// line, once that is whole. Half a line is a number that is still arriving.
pub open spec fn estimate(text: Seq<char>) -> Option<nat> {
    match find(text, "\n"@) {
        Some(i) => {
            let line = text.take(i);
            if "EST:"@.is_prefix_of(line) {
                whole_number(trim(line.skip("EST:"@.len() as int)), u32::MAX as nat)
            } else {
                None
            }
        },
        None => None,
    }
}

/// How long the test takes, from what was written so far.
pub fn estimate_in(text: &str) -> (r: Option<u32>)
    ensures
        match r {
            Some(n) => estimate(text@) == Some(n as nat),
            None => estimate(text@) is None,
        },
{
    let chars = chars_of(text);
    let feed = chars_of("\n");
    proof {
        lemma_find_from(text@, "\n"@, 0);
    }
    match find_in(&chars, &feed) {
        Some(i) => {
            let line = slice_subrange(&chars, 0, i);
            assert(line@ =~= text@.take(i as int));
            let mark = chars_of("EST:");
            if starts_with(line, &mark) {
                let rest = slice_subrange(line, mark.len(), line.len());
                assert(rest@ =~= line@.skip("EST:"@.len() as int));
                match number_of(trimmed(rest), u32::MAX as u64) {
                    Some(n) => Some(n as u32),
                    None => None,
                }
            } else {
                None
            }
        },
        None => None,
    }
}

/// How long the test takes, from the bytes that were written so far.
pub fn estimate_from(raw: &Vec<u8>) -> (r: Option<u32>)
    ensures
        match r {
            Some(n) => estimate(lossy_text(raw@)) == Some(n as nat),
            None => estimate(lossy_text(raw@)) is None,
        },
{
    let text = utf8_lossy(raw);
    estimate_in(&text)
}

/// How a check ended, from everything that the elevated half wrote.
pub open spec fn ending(text: Seq<char>) -> Ending {
    match find(text, REPORT_MARK@) {
        Some(i) => Ending::Report(text.skip(i + REPORT_MARK@.len())),
        None => match find(text, ERROR_MARK@) {
            Some(i) => Ending::Failed(
                "deep_check_failed"@,
                trim(text.skip(i + ERROR_MARK@.len())),
            ),
            None => Ending::Failed("deep_check_no_report"@, Seq::empty()),
        },
    }
}

/// How a check ended, from the text that was written.
pub fn outcome_of(text: &str) -> (r: Outcome)
    ensures
        r.tells(ending(text@)),
{
    let chars = chars_of(text);
    let report = chars_of(REPORT_MARK);
    let error = chars_of(ERROR_MARK);
    let all: usize = chars.len();
    let n: usize = report.len();
    let m: usize = error.len();
    proof {
        lemma_find_from(text@, REPORT_MARK@, 0);
        lemma_find_from(text@, ERROR_MARK@, 0);
    }
    match find_in(&chars, &report) {
        Some(i) => {
            assert(i + n <= all);
            let body = slice_subrange(&chars, i + n, all);
            assert(body@ =~= text@.skip(i + REPORT_MARK@.len()));
            return Outcome::Report(string_of(body));
        },
        None => {},
    }
    match find_in(&chars, &error) {
        Some(i) => {
            assert(i + m <= all);
            let words = slice_subrange(&chars, i + m, all);
            assert(words@ =~= text@.skip(i + ERROR_MARK@.len()));
            Outcome::Failed(
                CmdError::with_detail("deep_check_failed", string_of(trimmed(words))),
            )
        },
        None => Outcome::Failed(CmdError::plain("deep_check_no_report")),
    }
}

/// How a check ended, from the bytes that were written.
pub fn read_outcome(raw: &Vec<u8>) -> (r: Outcome)
    ensures
        r.tells(ending(lossy_text(raw@))),
{
    let text = utf8_lossy(raw);
    outcome_of(&text)
}

/// An extended check, watched from this half.
#[derive(Debug)]
pub struct LongWatch {
    /// The disk, as the tool calls it.
    pub device: String,
    /// What the elevated half wrote so far.
    pub raw: Vec<u8>,
    /// It was announced that the check began.
    pub announced: bool,
}

/// What follows a look at the channel.
#[derive(Debug)]
pub enum WatchStep {
    /// Look again at once.
    Again,
    /// Look again after a moment.
    Later,
    /// The check is over.
    Over(Outcome),
}

/// How the check ends at a look, where it does: cancelled, closed by the elevated
/// half, or because nobody will dial in any more.
pub open spec fn watch_end(raw: Seq<u8>, cancelled: bool, read: PipeRead, exited: bool) -> Option<
    Ending,
> {
    if cancelled {
        Some(Ending::Cancelled)
    } else {
        match read {
            PipeRead::Closed => Some(ending(lossy_text(raw))),
            PipeRead::Listening => if exited {
                Some(Ending::Failed("elevated_step_failed"@, Seq::empty()))
            } else {
                None
            },
            PipeRead::Failed(n) => Some(Ending::Failed("channel_read_failed"@, numbered(n as int))),
            _ => None,
        }
    }
}

/// Something new was read.
pub open spec fn has_news(cancelled: bool, read: PipeRead) -> bool {
    !cancelled && (read matches PipeRead::Bytes(b) && b@.len() > 0)
}

impl LongWatch {
    /// A check of a disk.
    pub fn new(device: String) -> (r: Self)
        ensures
            r.device == device,
            r.raw@.len() == 0,
            !r.announced,
    {
        LongWatch { device, raw: Vec::new(), announced: false }
    }

    /// A look at the channel: whether the user stopped the check, what was read,
    /// and whether the elevated half is gone. It is announced once how long the
    /// test takes.
    pub fn next(&mut self, cancelled: bool, read: PipeRead, exited: bool) -> (r: (
        WatchStep,
        Option<DeepCheckStarted>,
    ))
        ensures
            final(self).device == old(self).device,
            final(self).raw@ == (if has_news(cancelled, read) {
                old(self).raw@ + read->Bytes_0@
            } else {
                old(self).raw@
            }),
            match watch_end(old(self).raw@, cancelled, read, exited) {
                Some(end) => r.0 matches WatchStep::Over(o) && o.tells(end),
                None => if has_news(cancelled, read) {
                    r.0 is Again
                } else {
                    r.0 is Later
                },
            },
            ({
                let minutes = estimate(lossy_text(final(self).raw@));
                if has_news(cancelled, read) && !old(self).announced && minutes is Some {
                    final(self).announced && (r.1 matches Some(s) && s.device@ == old(
                        self,
                    ).device@ && s.estimated_minutes == minutes->0)
                } else {
                    final(self).announced == old(self).announced && r.1 is None
                }
            }),
    {
        if cancelled {
            return (WatchStep::Over(Outcome::Cancelled), None);
        }
        match read {
            PipeRead::Bytes(b) => {
                let n: usize = b.len();
                if n == 0 {
                    return (WatchStep::Later, None);
                }
                let ghost before = self.raw@;
                let ghost device = self.device;
                let ghost announced = self.announced;
                for i in 0..n
                    invariant
                        n == b@.len(),
                        self.raw@ == before + b@.take(i as int),
                        self.device == device,
                        self.announced == announced,
                {
                    self.raw.push(b[i]);
                    assert(b@.take(i as int + 1) =~= b@.take(i as int).push(b@[i as int]));
                }
                assert(b@.take(n as int) =~= b@);
                if !self.announced {
                    match estimate_from(&self.raw) {
                        Some(minutes) => {
                            self.announced = true;
                            let started = DeepCheckStarted {
                                device: self.device.clone(),
                                estimated_minutes: minutes,
                            };
                            return (WatchStep::Again, Some(started));
                        },
                        None => {},
                    }
                }
                (WatchStep::Again, None)
            },
            PipeRead::Closed => (WatchStep::Over(read_outcome(&self.raw)), None),
            PipeRead::Listening => {
                if exited {
                    let e = CmdError::plain("elevated_step_failed");
                    (WatchStep::Over(Outcome::Failed(e)), None)
                } else {
                    (WatchStep::Later, None)
                }
            },
            PipeRead::NoData => (WatchStep::Later, None),
            PipeRead::Failed(n) => (WatchStep::Over(Outcome::Failed(read_failed(n))), None),
        }
    }
}

/// Whether an extended check can begin: only a physical drive has one.
pub fn run_deep_check(device: &str) -> (r: Result<(), CmdError>)
    ensures
        match r {
            Ok(_) => "\\\\.\\PhysicalDrive"@.is_prefix_of(device@),
            Err(e) => !"\\\\.\\PhysicalDrive"@.is_prefix_of(device@) && e.says(
                "invalid_device"@,
                Seq::empty(),
            ),
        },
{
    if !str_starts_with(device, "\\\\.\\PhysicalDrive") {
        return Err(CmdError::plain("invalid_device"));
    }
    Ok(())
}

/// The time of day where the user is.
#[derive(Debug, Clone, Copy, PartialEq, Eq, Structural)]
pub struct LocalTime {
    /// The year.
    pub year: u16,
    /// The month.
    pub month: u16,
    /// The day.
    pub day: u16,
    /// The hour.
    pub hour: u16,
    /// The minute.
    pub minute: u16,
    /// The second.
    pub second: u16,
}

/// The moment in the name of a report.
pub open spec fn moment_in_name(t: LocalTime) -> Seq<char> {
    padded(t.year as nat, 4) + padded(t.month as nat, 2) + padded(t.day as nat, 2) + "_"@ + padded(
        t.hour as nat,
        2,
    ) + padded(t.minute as nat, 2) + padded(t.second as nat, 2)
}

/// The moment in the text of a report.
pub open spec fn moment_in_text(t: LocalTime) -> Seq<char> {
    padded(t.year as nat, 4) + "-"@ + padded(t.month as nat, 2) + "-"@ + padded(t.day as nat, 2)
        + " "@ + padded(t.hour as nat, 2) + ":"@ + padded(t.minute as nat, 2) + ":"@ + padded(
        t.second as nat,
        2,
    )
}

/// The two digits or more of a number.
fn two(n: u16) -> (r: String)
    ensures
        r@ == padded(n as nat, 2),
{
    string_of(&padded_chars(n as u64, 2))
}

/// The four digits or more of a number.
fn four(n: u16) -> (r: String)
    ensures
        r@ == padded(n as nat, 4),
{
    string_of(&padded_chars(n as u64, 4))
}

/// The moment in the name of a report.
fn name_moment(t: &LocalTime) -> (r: String)
    ensures
        r@ == moment_in_name(*t),
{
    let mut s = join4(&four(t.year), &two(t.month), &two(t.day), "_");
    s.append(&two(t.hour));
    s.append(&two(t.minute));
    s.append(&two(t.second));
    s
}

/// The moment in the text of a report.
fn text_moment(t: &LocalTime) -> (r: String)
    ensures
        r@ == moment_in_text(*t),
{
    let mut s = join4(&four(t.year), "-", &two(t.month), "-");
    s.append(&two(t.day));
    s.append(" ");
    s.append(&two(t.hour));
    s.append(":");
    s.append(&two(t.minute));
    s.append(":");
    s.append(&two(t.second));
    s
}

/// Where the report of a check goes, and what it says.
pub fn save_report(downloads: &str, label: &str, header: &str, body: &str, now: &LocalTime) -> (r: (
    String,
    String,
))
    ensures
        r.0@ == joined(downloads@, report_name(label@, moment_in_name(*now))),
        r.1@ == report_text(header@, moment_in_text(*now), body@),
{
    let name = make_report_name(label, &name_moment(now));
    let chars = chars_of(&name);
    (
        crate::sys::windows::join(downloads, &chars),
        make_report_text(header, &text_moment(now), body),
    )
}

/// What an extended check ends with: the report that was saved, or why there is
/// none.
pub fn deep_result(outcome: Outcome, path: String, saved: Result<(), Fault<String>>) -> (r:
    DeepCheckResult)
    ensures
        match outcome {
            Outcome::Cancelled => r.is_cancelled(),
            Outcome::Failed(e) => r.failed_with(e.code@, e.detail@),
            Outcome::Report(_) => match saved {
                Ok(_) => r.is_saved(path@),
                Err(f) => r.failed_with("report_not_saved"@, without_number(f.text@)),
            },
        },
{
    match outcome {
        Outcome::Cancelled => DeepCheckResult::stopped(),
        Outcome::Failed(e) => DeepCheckResult::failed(e),
        Outcome::Report(_) => match saved {
            Ok(_) => DeepCheckResult::saved(path),
            Err(f) => {
                proof {
                    reveal_strlit("report_not_saved");
                    lemma_words_wanted("report_not_saved"@);
                }
                DeepCheckResult::failed(CmdError::from_words("report_not_saved", &f.text))
            },
        },
    }
}

/// The folder for downloads, from what the system said of it.
pub fn downloads_dir(answer: Option<Vec<u16>>) -> (r: Result<String, CmdError>)
    ensures
        match r {
            Ok(s) => answer matches Some(units) && s@ == decoded(units@),
            Err(e) => answer is None && e.says("report_not_saved"@, Seq::empty()),
        },
{
    match answer {
        Some(units) => Ok(narrow(&units)),
        None => Err(CmdError::plain("report_not_saved")),
    }
}

/// A text without the separators at its end.
pub open spec fn without_separators(s: Seq<char>) -> Seq<char>
    decreases s.len(),
{
    if s.len() > 0 && (s.last() == '\\' || s.last() == '/') {
        without_separators(s.drop_last())
    } else {
        s
    }
}

/// A text without the colons at its end.
pub open spec fn without_colons(s: Seq<char>) -> Seq<char>
    decreases s.len(),
{
    if s.len() > 0 && s.last() == ':' {
        without_colons(s.drop_last())
    } else {
        s
    }
}

/// The folder that the user picked, or the letter of the drive where they picked
/// its root.
pub open spec fn picked_name(mount: Seq<char>) -> Seq<char> {
    without_colons(last_piece(without_separators(mount), 0, Separators::Both))
}

/// A name for the report that says which disk it is about.
pub fn sanitize_label(mount_path: &str) -> (r: String)
    ensures
        r@ == label_of(picked_name(mount_path@)),
{
    let chars = chars_of(mount_path);
    let mut path: &[char] = &chars;
    while path.len() > 0 && (path[path.len() - 1] == '\\' || path[path.len() - 1] == '/')
        invariant
            without_separators(mount_path@) == without_separators(path@),
        decreases path@.len(),
    {
        let shorter = slice_subrange(path, 0, path.len() - 1);
        assert(shorter@ =~= path@.drop_last());
        path = shorter;
    }
    let mut base: &[char] = crate::sys::path::piece_behind(path, 0, Separators::Both);
    let ghost piece = base@;
    while base.len() > 0 && base[base.len() - 1] == ':'
        invariant
            without_colons(piece) == without_colons(base@),
        decreases base@.len(),
    {
        let shorter = slice_subrange(base, 0, base.len() - 1);
        assert(shorter@ =~= base@.drop_last());
        base = shorter;
    }
    make_label(base)
}

/// The job of the elevated half is told by the first flag of it among the arguments, and
/// is given what stands behind that; without a flag there is no job.
pub proof fn law_what_stands_behind_a_flag(
    before: Seq<Seq<char>>,
    flag: Seq<char>,
    after: Seq<Seq<char>>,
)
    requires
        !before.contains(flag),
    ensures
        behind(before + seq![flag] + after, flag) == Some(after),
        behind(before, flag) is None,
    decreases before.len(),
{
    let all = before + seq![flag] + after;
    if before.len() == 0 {
        assert(all.first() == flag);
        assert(all.drop_first() =~= after);
    } else {
        let less = before.drop_first();
        assert(before.contains(before[0]));
        assert(all.first() == before[0] && before.first() == before[0]);
        assert(all.drop_first() =~= less + seq![flag] + after);
        assert(!less.contains(flag)) by {
            if less.contains(flag) {
                let k = choose|k: int| 0 <= k < less.len() && less[k] == flag;
                assert(before[k + 1] == flag);
            }
        }
        law_what_stands_behind_a_flag(less, flag, after);
    }
}

/// A line says how a test in the disk stands: it has the words for it and a number in
/// brackets.
pub open spec fn says_status(line: Seq<char>, n: nat) -> bool {
    contains(line, "Self-test execution status"@) && (bracketed(line) matches Some(v)
        && whole_number(trim(v), 0xffff_ffff) == Some(n))
}

/// A test is running as long as the first line that says how it stands gives a number of
/// 240 or more; where no line says so it counts as running.
pub proof fn law_when_a_test_is_running(
    before: Seq<Seq<char>>,
    line: Seq<char>,
    after: Seq<Seq<char>>,
    n: nat,
)
    requires
        forall|i: int, k: nat| 0 <= i < before.len() ==> !#[trigger] says_status(before[i], k),
        says_status(line, n),
    ensures
        running(before + seq![line] + after) <==> n >= 240,
        running(before),
    decreases before.len(),
{
    let all = before + seq![line] + after;
    if before.len() == 0 {
        assert(all.first() == line);
    } else {
        let less = before.drop_first();
        let first = before[0];
        assert(all.first() == first && before.first() == first);
        assert(all.drop_first() =~= less + seq![line] + after);
        assert forall|i: int, k: nat| 0 <= i < less.len() implies !#[trigger] says_status(
            less[i],
            k,
        ) by {
            assert(less[i] == before[i + 1]);
        }
        law_when_a_test_is_running(less, line, after, n);
        if contains(first, "Self-test execution status"@) {
            if let Some(v) = bracketed(first) {
                if let Some(k) = whole_number(trim(v), u32::MAX as nat) {
                    assert(says_status(first, k));
                }
            }
        }
    }
}

/// The first line that says something is what is told of a test that did not start.
pub proof fn law_the_first_line_tells(
    before: Seq<Seq<char>>,
    line: Seq<char>,
    after: Seq<Seq<char>>,
)
    requires
        forall|i: int| 0 <= i < before.len() ==> trim(#[trigger] before[i]).len() == 0,
        trim(line).len() > 0,
    ensures
        telling_line(before + seq![line] + after) == trim(line),
        telling_line(before) == "Extended Check Did Not Start"@,
    decreases before.len(),
{
    let all = before + seq![line] + after;
    if before.len() == 0 {
        assert(all.first() == line);
    } else {
        let less = before.drop_first();
        assert(all.first() == before[0] && before.first() == before[0]);
        assert(all.drop_first() =~= less + seq![line] + after);
        assert forall|i: int| 0 <= i < less.len() implies trim(#[trigger] less[i]).len() == 0 by {
            assert(less[i] == before[i + 1]);
        }
        law_the_first_line_tells(less, line, after);
    }
}

/// A test starts unless the tool says that it did not: with a negative code, or with one
/// of the three lowest bits raised. It then has twice the time that the disk declares, or
/// two hours where the disk declares none.
pub proof fn law_a_test_starts(m: TestModel, text: Seq<char>, code: i32)
    requires
        m.stage == TestStage::Start,
    ensures
        ({
            let next = test_next(m, TestReply::Answer(text, code));
            let refused = code < 0 || code % 8 != 0;
            &&& refused ==> next.stage == TestStage::SayLast && next.last
                == "\n===GEMINUS-ERROR===\n"@ + telling_line(lines(text))
            &&& !refused ==> next.stage == TestStage::Sleep && next.budget == (if m.estimate > 0 {
                m.estimate * 120
            } else {
                7200
            }) && next.waited == m.waited
        }),
{
    assert(code >= 0 ==> (code & 7 != 0 <==> code % 8 != 0)) by (bit_vector);
}

/// A test that was started is looked at every ten seconds. After the first look it is over
/// as soon as the disk says that it does not run any more; otherwise it is waited for
/// until its time is spent, and then given up. Either way the disk is asked for
/// everything it has to say.
pub proof fn law_a_test_is_waited_for(m: TestModel, text: Seq<char>, code: i32)
    requires
        m.waited <= 0xff_ffff_ffff,
    ensures
        ({
            let told = test_next(m, TestReply::Answer(text, code));
            &&& m.stage == TestStage::Sleep ==> test_next(m, TestReply::Slept) == (TestModel {
                stage: TestStage::Beat,
                waited: (m.waited + 10) as u64,
                ..m
            })
            &&& m.stage == TestStage::Beat ==> test_next(m, TestReply::Wrote(true)).stage
                == TestStage::AskStatus
            &&& m.stage == TestStage::AskStatus ==> told.stage == (if m.waited > 10 && !running(
                lines(text),
            ) {
                TestStage::AskFull
            } else if m.waited < m.budget {
                TestStage::Sleep
            } else {
                TestStage::GiveUp
            }) && told.waited == m.waited && told.budget == m.budget
            &&& m.stage == TestStage::GiveUp ==> told.stage == TestStage::AskFull
            &&& m.stage == TestStage::AskFull ==> told.stage == TestStage::AskLog && told.full
                == text
            &&& m.stage == TestStage::AskLog ==> told.stage == TestStage::SayLast && told.last
                == "\n===GEMINUS-REPORT===\n"@ + "=== smartctl -a ===\n"@ + m.full
                + "\n=== smartctl -l selftest ===\n"@ + text
        }),
{
}

/// Before that the channel is opened, the tool is looked for and asked what the disk
/// declares, and the estimate is told; without the channel nothing is done, and without
/// the tool that is said.
pub proof fn law_a_test_is_prepared(m: TestModel, text: Seq<char>, code: i32)
    ensures
        m.stage == TestStage::Open ==> test_next(m, TestReply::Opened(true)).stage
            == TestStage::FindTool && test_next(m, TestReply::Opened(false)).stage
            == TestStage::Ended,
        m.stage == TestStage::FindTool ==> test_next(m, TestReply::Tool(true)).stage
            == TestStage::AskCapabilities && test_next(m, TestReply::Tool(false)).stage
            == TestStage::SayLast && test_next(m, TestReply::Tool(false)).last
            == "\n===GEMINUS-ERROR===\n"@ + "tool not available"@,
        m.stage == TestStage::AskCapabilities ==> test_next(
            m,
            TestReply::Answer(text, code),
        ).stage == TestStage::SayEstimate && test_next(m, TestReply::Answer(text, code)).estimate
            == declared_minutes(lines(text), false) as u32,
        m.stage == TestStage::SayEstimate ==> test_next(m, TestReply::Wrote(true)).stage
            == TestStage::Start && test_next(m, TestReply::Wrote(false)).stage
            == TestStage::Ended,
        m.stage == TestStage::SayLast ==> test_next(m, TestReply::Wrote(true)).stage
            == TestStage::Ended,
{
}

/// A physical drive has a name of its own for the tool, by its number, as long as there
/// are letters; everything else is passed on as it is.
pub proof fn law_a_drive_has_a_name_for_the_tool(n: nat)
    requires
        n <= 0xffff_ffff,
    ensures
        n < 26 ==> tool_device("\\\\.\\PhysicalDrive"@ + decimal(n)) == "/dev/sd"@ + seq![
            (97 + n) as u8 as char,
        ],
        n >= 26 ==> tool_device("\\\\.\\PhysicalDrive"@ + decimal(n)) == "\\\\.\\PhysicalDrive"@
            + decimal(n),
{
    let mark = "PhysicalDrive"@;
    let front = "\\\\.\\"@;
    reveal_strlit("\\\\.\\PhysicalDrive");
    reveal_strlit("PhysicalDrive");
    reveal_strlit("\\\\.\\");
    let number = decimal(n);
    let device = "\\\\.\\PhysicalDrive"@ + number;
    lemma_decimal_digits(n);
    law_a_decimal_reads_back(n, Seq::empty(), 0xffff_ffff);
    assert(device =~= front + mark + number);
    lemma_rfind_to(device, mark, device.len() - mark.len());
    assert(device.subrange(4, 17) =~= mark);
    assert(occurs_at(device, mark, 4));
    let k = rfind(device, mark)->0;
    if k > 4 {
        assert(device.subrange(k, k + mark.len())[12] == device[k + 12]);
        assert(device[k + 12] == number[k + 12 - 17]);
        assert(is_digit(number[k + 12 - 17]));
    }
    assert(device.skip(17) =~= number);
}

/// Both disks are asked about by the names that the tool has for them, the first side's
/// first; one disk on both sides is asked about once, and one that is not known not at
/// all.
pub proof fn law_which_disks_are_asked_about(dev_a: Seq<char>, dev_b: Seq<char>)
    ensures
        dev_a.len() > 0 && dev_b.len() > 0 && dev_a != dev_b ==> wanted(dev_a, dev_b) == seq![
            tool_device(dev_a),
            tool_device(dev_b),
        ],
        dev_a.len() > 0 && (dev_b.len() == 0 || dev_a == dev_b) ==> wanted(dev_a, dev_b) == seq![
            tool_device(dev_a),
        ],
        dev_a.len() == 0 && dev_b.len() > 0 ==> wanted(dev_a, dev_b) == seq![tool_device(dev_b)],
        dev_a.len() == 0 && dev_b.len() == 0 ==> wanted(dev_a, dev_b).len() == 0,
{
    let both = seq![tool_device(dev_a)].push(tool_device(dev_b));
    assert(both =~= seq![tool_device(dev_a), tool_device(dev_b)]);
    assert(Seq::<Seq<char>>::empty().push(tool_device(dev_b)) =~= seq![tool_device(dev_b)]);
}

/// What the elevated half says of a failure is read back, white space aside, as long as it
/// wrote no report; and where it wrote neither, there is no report.
pub proof fn law_an_error_comes_through(before: Seq<char>, words: Seq<char>)
    requires
        !contains(before, "===GEMINUS-ERROR==="@),
        !contains(before + "\n===GEMINUS-ERROR===\n"@ + words, "\n===GEMINUS-REPORT===\n"@),
        !contains(before, "\n===GEMINUS-REPORT===\n"@),
    ensures
        ending(before + "\n===GEMINUS-ERROR===\n"@ + words) == Ending::Failed(
            "deep_check_failed"@,
            trim(words),
        ),
        ending(before) == Ending::Failed("deep_check_no_report"@, Seq::empty()),
{
    let mark = "\n===GEMINUS-ERROR===\n"@;
    let core = "===GEMINUS-ERROR==="@;
    let report = "\n===GEMINUS-REPORT===\n"@;
    reveal_strlit("\n===GEMINUS-ERROR===\n");
    reveal_strlit("===GEMINUS-ERROR===");
    assert(mark =~= seq!['\n'] + core + seq!['\n']);
    lemma_first_mark(before, words, mark, core);
    let text = before + mark + words;
    lemma_find_from(text, report, 0);
    if let Some(i) = find(text, report) {
        assert(occurs_at(text, report, i));
    }
    assert(text.skip((before.len() + mark.len()) as int) =~= words);
    lemma_find_from(before, report, 0);
    if let Some(i) = find(before, report) {
        assert(occurs_at(before, report, i));
    }
    lemma_find_from(before, mark, 0);
    if let Some(i) = find(before, mark) {
        assert(before.subrange(i, i + mark.len()) == mark);
        assert(before.subrange(i + 1, i + 1 + core.len()) =~= core) by {
            assert forall|j: int| 0 <= j < core.len() implies before.subrange(
                i + 1,
                i + 1 + core.len(),
            )[j] == core[j] by {
                assert(before.subrange(i, i + mark.len())[j + 1] == mark[j + 1]);
            }
        }
        assert(occurs_at(before, core, i + 1));
    }
}

/// A watch over the elevated half ends when the user stops it, whatever comes; when the
/// channel is closed, with what was said on it; when that half is gone before it said a
/// word; and when reading fails. Otherwise it goes on.
pub proof fn law_when_a_watch_ends(raw: Seq<u8>, cancelled: bool, read: PipeRead, exited: bool)
    ensures
        cancelled <==> watch_end(raw, cancelled, read, exited) == Some(Ending::Cancelled),
        !cancelled && read is Closed ==> watch_end(raw, cancelled, read, exited) == Some(
            ending(lossy_text(raw)),
        ),
        !cancelled && read is Listening ==> (watch_end(raw, cancelled, read, exited) is Some
            <==> exited),
        !cancelled ==> (read matches PipeRead::Failed(n) ==> watch_end(raw, cancelled, read, exited)
            == Some(Ending::Failed("channel_read_failed"@, numbered(n as int)))),
        !cancelled && (read is Bytes || read is NoData) ==> watch_end(raw, cancelled, read, exited)
            is None,
        has_news(cancelled, read) <==> !cancelled && (read matches PipeRead::Bytes(b) && b@.len()
            > 0),
{
}

/// What was read of a report is over at its end, and everything but bytes and an end is an
/// error that says what happened.
pub proof fn law_when_a_report_is_read(read: PipeRead, code: u32)
    ensures
        report_end(read, code) is None <==> (read matches PipeRead::Bytes(b) && b@.len() > 0),
        read is Closed || (read matches PipeRead::Bytes(b) && b@.len() == 0) ==> report_end(
            read,
            code,
        ) == Some(Ok::<(), (Seq<char>, Seq<char>)>(())),
        read is Listening ==> (report_end(read, code) matches Some(Err(why)) && why.0
            == "elevated_step_failed"@ && why.1 == "exit "@ + decimal(code as nat)),
        read is NoData ==> (report_end(read, code) matches Some(Err(why)) && why.0
            == "channel_read_failed"@ && why.1 == numbered(232)),
        read matches PipeRead::Failed(n) ==> (report_end(read, code) matches Some(Err(why)) && why.0
            == "channel_read_failed"@ && why.1 == numbered(n as int)),
{
}

/// What the tool said is what it printed, or what it printed as errors where it printed
/// nothing else.
pub proof fn law_what_the_tool_said(stdout: Seq<char>, stderr: Seq<char>)
    ensures
        trim(stdout).len() > 0 ==> tool_text(stdout, stderr) == stdout,
        trim(stdout).len() == 0 ==> tool_text(stdout, stderr) == stderr,
{
}

/// A disk is labelled by the last name of its mount point, or by the letter of its drive,
/// without the separators and colons behind.
pub proof fn law_the_last_name_is_the_label(before: Seq<char>, name: Seq<char>, letter: char)
    requires
        plain_name(name, Separators::Both),
        name[name.len() - 1] != ':',
        letter != ':' && letter != '\\' && letter != '/',
    ensures
        picked_name(before + seq!['\\'] + name) == name,
        picked_name(before + seq!['\\'] + name + seq!['\\']) == name,
        picked_name(seq![letter, ':', '\\']) == seq![letter],
{
    let both = Separators::Both;
    reveal_with_fuel(without_separators, 2);
    reveal_with_fuel(without_colons, 2);
    reveal_with_fuel(crate::sys::path::last_separator, 3);
    let x = before + seq!['\\'];
    let path = x + name;
    assert(!crate::sys::path::separates(both, name[name.len() - 1]));
    assert(path.last() == name[name.len() - 1]);
    lemma_ends_with_name(x, 0, both, name);
    assert(last_piece(path, 0, both) == name);
    let slashed = path + seq!['\\'];
    assert(slashed.last() == '\\');
    assert(slashed.drop_last() =~= path);
    assert(name.last() == name[name.len() - 1]);
    let drive = seq![letter, ':', '\\'];
    let short = seq![letter, ':'];
    assert(drive.drop_last() =~= short);
    assert(short.drop_last() =~= seq![letter]);
    assert(seq![letter].drop_last() =~= Seq::<char>::empty());
    assert(last_piece(short, 0, both) =~= short);
}

/// Whatever can come is taken at its stage, at every moment of a test.
pub proof fn law_whatever_comes_is_taken(
    log: Seq<TestReply<Seq<char>>>,
    text: Seq<char>,
    code: i32,
    flag: bool,
)
    requires
        test_log(test_start(), log),
    ensures
        ({
            let m = test_run(test_start(), log);
            let writes = m.stage == TestStage::SayEstimate || m.stage == TestStage::Beat || m.stage
                == TestStage::SayLast;
            let other = m.stage == TestStage::Open || m.stage == TestStage::FindTool || m.stage
                == TestStage::Sleep || m.stage == TestStage::Ended;
            &&& m.stage == TestStage::Open ==> test_takes(m, TestReply::Opened(flag))
            &&& m.stage == TestStage::FindTool ==> test_takes(m, TestReply::Tool(flag))
            &&& writes ==> test_takes(m, TestReply::Wrote(flag))
            &&& m.stage == TestStage::Sleep ==> test_takes(m, TestReply::Slept)
            &&& !writes && !other ==> test_takes(m, TestReply::Answer(text, code))
        }),
{
    law_a_test_never_waits_for_ever(log);
}

/// The moment in the name of a report is the day, an underscore and the time of day, each
/// part in its width; in the text it reads the usual way.
pub proof fn law_a_moment_is_written_in_order(t: LocalTime)
    ensures
        moment_in_name(t) == padded(t.year as nat, 4) + padded(t.month as nat, 2) + padded(
            t.day as nat,
            2,
        ) + seq!['_'] + padded(t.hour as nat, 2) + padded(t.minute as nat, 2) + padded(
            t.second as nat,
            2,
        ),
        moment_in_text(t) == padded(t.year as nat, 4) + seq!['-'] + padded(t.month as nat, 2)
            + seq!['-'] + padded(t.day as nat, 2) + seq![' '] + padded(t.hour as nat, 2)
            + seq![':'] + padded(t.minute as nat, 2) + seq![':'] + padded(t.second as nat, 2),
{
    reveal_strlit("_");
    reveal_strlit("-");
    reveal_strlit(" ");
    reveal_strlit(":");
    assert("_"@ =~= seq!['_'] && "-"@ =~= seq!['-'] && " "@ =~= seq![' '] && ":"@ =~= seq![':']);
}

/// A channel is named after the request: the mark of the program, the number of the run, a
/// hyphen, and the number of the request.
pub proof fn law_a_channel_says_whose_it_is(pid: nat, seq: nat)
    ensures
        channel_of(pid, seq) == "\\\\.\\pipe\\geminus-disk-"@ + decimal(pid) + seq!['-'] + decimal(
            seq,
        ),
{
    reveal_strlit("-");
    assert("-"@ =~= seq!['-']);
}

proof fn lemma_behind_what_is_there(args: Seq<Seq<char>>, flag: Seq<char>)
    ensures
        behind(args, flag) is Some <==> args.contains(flag),
    decreases args.len(),
{
    if args.len() > 0 {
        let less = args.drop_first();
        lemma_behind_what_is_there(less, flag);
        assert(args.first() == args[0]);
        if less.contains(flag) {
            let k = choose|k: int| 0 <= k < less.len() && less[k] == flag;
            assert(args[k + 1] == flag);
        }
        if args.contains(flag) && args[0] != flag {
            let k = choose|k: int| 0 <= k < args.len() && args[k] == flag;
            assert(less[k - 1] == flag);
        }
    }
}

/// The elevated half does what its arguments ask for: a report where they hold the
/// argument for one, otherwise a long test where they hold that, and otherwise nothing.
pub proof fn law_which_job_is_asked_for(job: Option<HelperJob>, args: Seq<String>)
    requires
        is_job(job, args),
    ensures
        texts(args).contains("--disk-report"@) <==> (job matches Some(HelperJob::Report(_))),
        !texts(args).contains("--disk-report"@) && texts(args).contains("--disk-longtest"@) <==> (
        job matches Some(HelperJob::LongTest(_))),
        job is None <==> !texts(args).contains("--disk-report"@) && !texts(args).contains(
            "--disk-longtest"@,
        ),
{
    lemma_behind_what_is_there(texts(args), "--disk-report"@);
    lemma_behind_what_is_there(texts(args), "--disk-longtest"@);
}

/// A test begins with nothing known, nothing waited for and nothing said.
pub proof fn law_a_test_begins_with_nothing()
    ensures
        ({
            let m = test_start();
            &&& m.stage == TestStage::Open && m.estimate == 0 && m.budget == 0 && m.waited == 0
            &&& m.full.len() == 0 && m.last.len() == 0
        }),
{
}

} // verus!
