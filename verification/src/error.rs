//! What a command hands back when it cannot do its job.
//!
//! A stable key, and the system's own words as the technical tail. No sentence
//! for the user is composed here: it would not follow the language toggle.
use vstd::prelude::*;
use vstd::slice::slice_subrange;

use crate::text::search::{lemma_rfind_to, occurs_at, rfind, rfind_in};
use crate::text::{chars_of, same_str, string_of};

verus! {

/// The errors of the system, as the standard library carries them.
#[verifier::external_type_specification]
#[verifier::external_body]
pub struct ExIoError(std::io::Error);

/// The kinds of failure that are told apart by name.
#[derive(Debug, Clone, Copy, PartialEq, Eq, Structural)]
pub enum FailureKind {
    /// The system did not allow it.
    PermissionDenied,
    /// There is nothing at that place.
    NotFound,
    /// Anything else.
    Other,
}

/// What is known of a failed system call: its kind, and the system's number for
/// it where it has one.
#[derive(Debug, Clone, Copy, PartialEq, Eq, Structural)]
pub struct IoFailure {
    /// The kind of failure.
    pub kind: FailureKind,
    /// The system's own number.
    pub raw: Option<i32>,
}

/// A failed system call with the words that came with it. The words are a
/// `String` where they are held and a `Seq<char>` where they are spoken of.
#[derive(Debug)]
pub struct Fault<S> {
    /// Kind and number.
    pub failure: IoFailure,
    /// The text of the error, number included.
    pub text: S,
}

impl Fault<String> {
    /// The fault with its words as a sequence of characters.
    pub open spec fn model(self) -> Fault<Seq<char>> {
        Fault { failure: self.failure, text: self.text@ }
    }
}

/// The number of the system that an error carries, where it carries one.
pub uninterp spec fn os_number(e: std::io::Error) -> Option<i32>;

/// An error may be of a kind: some system gives it that one.
pub uninterp spec fn may_be_of(e: std::io::Error, kind: FailureKind) -> bool;

/// An error may read so: some system, in some language, puts it in these words.
pub uninterp spec fn may_read(e: std::io::Error, text: Seq<char>) -> bool;

/// `std::io::Error::kind`, reduced to the kinds that are told apart: one that the
/// error may be of. Which kind stands for a number is for each system to say.
#[verifier::external_body]
fn kind_of(e: &std::io::Error) -> (r: FailureKind)
    ensures
        may_be_of(*e, r),
{
    match e.kind() {
        std::io::ErrorKind::PermissionDenied => FailureKind::PermissionDenied,
        std::io::ErrorKind::NotFound => FailureKind::NotFound,
        _ => FailureKind::Other,
    }
}

/// `std::io::Error::raw_os_error`: the number that the error was made from, and
/// none where it was made from something else.
#[verifier::external_body]
fn number_of(e: &std::io::Error) -> (r: Option<i32>)
    ensures
        r == os_number(*e),
{
    e.raw_os_error()
}

/// The `Display` text of `std::io::Error`: words that the error may read as. They
/// come from the system, and two calls need not agree.
#[verifier::external_body]
fn words_of(e: &std::io::Error) -> (r: String)
    ensures
        may_read(*e, r@),
{
    e.to_string()
}

/// Kind and number of a system error.
pub fn failure_of(e: &std::io::Error) -> (r: IoFailure)
    ensures
        r.raw == os_number(*e),
        may_be_of(*e, r.kind),
{
    IoFailure { kind: kind_of(e), raw: number_of(e) }
}

/// A system error as plain values.
pub fn fault_of(e: &std::io::Error) -> (r: Fault<String>)
    ensures
        r.failure.raw == os_number(*e),
        may_be_of(*e, r.failure.kind),
        may_read(*e, r.text@),
{
    Fault { failure: failure_of(e), text: words_of(e) }
}

/// What the system said, without the number that the language runtime adds at
/// the end: the text up to the last " (os error ", where it closes with a
/// bracket, and the whole text otherwise.
pub open spec fn without_number(full: Seq<char>) -> Seq<char> {
    match rfind(full, " (os error "@) {
        Some(cut) if full.len() > 0 && full.last() == ')' => full.take(cut),
        _ => full,
    }
}

/// The text of an error without the runtime's number.
pub fn system_words(full: &str) -> (r: String)
    ensures
        r@ == without_number(full@),
{
    let text = chars_of(full);
    let mark = chars_of(" (os error ");
    proof {
        lemma_rfind_to(text@, mark@, text@.len() - mark@.len());
    }
    match rfind_in(&text, &mark) {
        Some(cut) => {
            if text.len() > 0 && text[text.len() - 1] == ')' {
                let front = slice_subrange(&text, 0, cut);
                assert(front@ =~= full@.take(cut as int));
                return string_of(front);
            }
            string_of(&text)
        },
        None => string_of(&text),
    }
}

/// What the system said, without the number the language runtime adds to it:
/// "Permission denied (os error 13)" is two things, and the second is for
/// whoever wrote the program, not for whoever is using it. Which words an error
/// comes with is left to the system; `system_words` says what becomes of them.
pub fn system_text(e: &std::io::Error) -> (r: String)
    ensures
        exists|full: Seq<char>| #[trigger] may_read(*e, full) && r@ == without_number(full),
{
    let full = words_of(e);
    system_words(&full)
}

/// A key and the technical tail.
#[derive(Debug, Clone)]
pub struct CmdError {
    /// The stable key.
    pub code: String,
    /// The system's own words, or nothing.
    pub detail: String,
}

/// Keys that already name the cause: the system's words would only say it a
/// second time.
pub open spec fn self_explaining(code: Seq<char>) -> bool {
    ||| code == "permission"@
    ||| code == "item_missing"@
    ||| code == "no_app_for_type"@
    ||| code == "not_a_web_address"@
    ||| code == "invalid_device"@
    ||| code == "no_physical_disk"@
    ||| code == "symlink_not_copyable"@
    ||| code == "source_kind_not_supported"@
}

/// The keys that name the cause are few, and few texts have the length of one and
/// begin with its letter.
pub proof fn lemma_words_wanted(code: Seq<char>)
    requires
        code.len() > 0,
        code[0] == 'p' ==> code.len() != 10,
        code[0] == 'i' ==> code.len() != 12 && code.len() != 14,
        code[0] == 'n' ==> code.len() != 15 && code.len() != 16 && code.len() != 17,
        code[0] == 's' ==> code.len() != 20 && code.len() != 25,
    ensures
        !self_explaining(code),
{
    reveal_strlit("permission");
    reveal_strlit("item_missing");
    reveal_strlit("no_app_for_type");
    reveal_strlit("not_a_web_address");
    reveal_strlit("invalid_device");
    reveal_strlit("no_physical_disk");
    reveal_strlit("symlink_not_copyable");
    reveal_strlit("source_kind_not_supported");
    assert("permission"@[0] == 'p' && "permission"@.len() == 10);
    assert("item_missing"@[0] == 'i' && "item_missing"@.len() == 12);
    assert("no_app_for_type"@[0] == 'n' && "no_app_for_type"@.len() == 15);
    assert("not_a_web_address"@[0] == 'n' && "not_a_web_address"@.len() == 17);
    assert("invalid_device"@[0] == 'i' && "invalid_device"@.len() == 14);
    assert("no_physical_disk"@[0] == 'n' && "no_physical_disk"@.len() == 16);
    assert("symlink_not_copyable"@[0] == 's' && "symlink_not_copyable"@.len() == 20);
    assert("source_kind_not_supported"@[0] == 's' && "source_kind_not_supported"@.len() == 25);
}

/// Whether a key already names the cause.
pub fn is_self_explaining(code: &str) -> (r: bool)
    ensures
        r == self_explaining(code@),
{
    same_str(code, "permission") || same_str(code, "item_missing") || same_str(
        code,
        "no_app_for_type",
    ) || same_str(code, "not_a_web_address") || same_str(code, "invalid_device") || same_str(
        code,
        "no_physical_disk",
    ) || same_str(code, "symlink_not_copyable") || same_str(code, "source_kind_not_supported")
}

impl CmdError {
    /// This error carries exactly this key and this tail.
    pub open spec fn says(&self, code: Seq<char>, detail: Seq<char>) -> bool {
        self.code@ == code && self.detail@ == detail
    }

    /// A key with nothing behind it.
    pub fn plain(code: &str) -> (r: Self)
        ensures
            r.says(code@, Seq::empty()),
    {
        CmdError { code: code.to_owned(), detail: String::new() }
    }

    /// A key with a tail of the caller's.
    pub fn with_detail(code: &str, detail: String) -> (r: Self)
        ensures
            r.says(code@, detail@),
    {
        CmdError { code: code.to_owned(), detail }
    }

    /// A key and the words that came with a failure: left out where the key
    /// already says it, without the runtime's number where they stay.
    pub fn from_words(code: &str, full: &str) -> (r: Self)
        ensures
            r.says(
                code@,
                if self_explaining(code@) {
                    Seq::empty()
                } else {
                    without_number(full@)
                },
            ),
    {
        let detail = if is_self_explaining(code) {
            String::new()
        } else {
            system_words(full)
        };
        CmdError { code: code.to_owned(), detail }
    }

    /// A key and the words of a system error. Which words those are is left to
    /// the system; `from_words` says what becomes of them.
    pub fn from_io(code: &str, e: &std::io::Error) -> (r: Self)
        ensures
            r.code@ == code@,
            self_explaining(code@) ==> r.detail@ == Seq::<char>::empty(),
            !self_explaining(code@) ==> exists|full: Seq<char>| #[trigger]
                may_read(*e, full) && r.detail@ == without_number(full),
    {
        let full = words_of(e);
        CmdError::from_words(code, &full)
    }
}

/// The system's words are shown without the number behind them, and words without such a
/// number are shown whole.
pub proof fn law_the_number_is_cut_off(words: Seq<char>, number: Seq<char>)
    requires
        !number.contains('('),
    ensures
        without_number(words + " (os error "@ + number + seq![')']) == words,
        words.len() == 0 || words[words.len() - 1] != ')' ==> without_number(words) == words,
{
    let mark = " (os error "@;
    let full = words + mark + number + seq![')'];
    let n = words.len() as int;
    lemma_mark();
    lemma_rfind_to(full, mark, full.len() - mark.len());
    assert(full.subrange(n, n + mark.len()) =~= mark);
    assert(occurs_at(full, mark, n));
    let k = rfind(full, mark)->0;
    if k > n {
        assert(full.subrange(k, k + mark.len())[1] == full[k + 1]);
        let j = k + 1 - n;
        if j < mark.len() {
            assert(full[k + 1] == mark[j]);
        } else if j < mark.len() + number.len() {
            assert(full[k + 1] == number[j - mark.len()]);
            assert(number.contains(number[j - mark.len()]));
        } else {
            assert(full[k + 1] == ')');
        }
    }
    assert(full.take(n) =~= words);
    assert(full.last() == ')');
}

/// The mark before the number holds one opening bracket, right behind its first space.
proof fn lemma_mark()
    ensures
        " (os error "@.len() == 11,
        " (os error "@[1] == '(',
        forall|j: int| 2 <= j < 11 ==> " (os error "@[j] != '(',
{
    reveal_strlit(" (os error ");
}

/// The keys that name the cause by themselves, and a key for something that failed, which
/// is never one of them: the words that came with it are needed.
pub proof fn law_a_failure_needs_words(front: Seq<char>)
    ensures
        self_explaining("permission"@),
        self_explaining("item_missing"@),
        self_explaining("no_app_for_type"@),
        self_explaining("not_a_web_address"@),
        self_explaining("invalid_device"@),
        self_explaining("no_physical_disk"@),
        self_explaining("symlink_not_copyable"@),
        self_explaining("source_kind_not_supported"@),
        !self_explaining(front + "_failed"@),
{
    reveal_strlit("permission");
    reveal_strlit("item_missing");
    reveal_strlit("no_app_for_type");
    reveal_strlit("not_a_web_address");
    reveal_strlit("invalid_device");
    reveal_strlit("no_physical_disk");
    reveal_strlit("symlink_not_copyable");
    reveal_strlit("source_kind_not_supported");
    reveal_strlit("_failed");
    let code = front + "_failed"@;
    assert(code[code.len() - 1] == 'd' && code[code.len() - 3] == 'l');
    assert("permission"@[9] == 'n');
    assert("item_missing"@[11] == 'g');
    assert("no_app_for_type"@[14] == 'e');
    assert("not_a_web_address"@[16] == 's');
    assert("invalid_device"@[13] == 'e');
    assert("no_physical_disk"@[15] == 'k');
    assert("symlink_not_copyable"@[19] == 'e');
    assert("source_kind_not_supported"@[22] == 't');
}

} // verus!
