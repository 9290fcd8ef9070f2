//! The bounded log of an attempt.

use vstd::prelude::*;
use vstd::string::*;

use crate::redact::{
    any_occurs, law_redaction_removes_issued_tokens, law_text_without_tokens_is_kept, law_tokens_are_ordered,
    longest_first, redact, redacted,
};
use crate::text::{byte_count, byte_len, fitting, law_truncation, occurs, occurs_at, texts, truncate};

verus! {

/// The longest line, in bytes.
pub const MAX_LOG_LINE_BYTES: usize = 4 * 1024;

/// The longest log of one attempt, in bytes.
pub const MAX_LOG_BYTES: usize = 1024 * 1024;

/// What each line is charged besides its text, so that empty lines cost too.
pub const LOG_ENTRY_BYTES: usize = 192;

/// The last line of a log that was cut off.
pub const LOG_DROPPED_MESSAGE: &'static str = "Further attempt logs were dropped after the 1 MiB limit.";

/// How urgent a line is.
#[derive(Clone, Copy, Debug, PartialEq, Eq, Structural)]
pub enum LogLevel {
    Trace,
    Debug,
    Info,
    Warn,
    Error,
}

impl LogLevel {
    /// The name of this level.
    pub open spec fn text_spec(self) -> Seq<char> {
        match self {
            LogLevel::Trace => "Level::Trace"@,
            LogLevel::Debug => "Level::Debug"@,
            LogLevel::Info => "Level::Info"@,
            LogLevel::Warn => "Level::Warn"@,
            LogLevel::Error => "Level::Error"@,
        }
    }

    /// Returns the name of this level.
    pub fn text(&self) -> (text: &'static str)
        ensures
            text@ == self.text_spec(),
    {
        match self {
            LogLevel::Trace => "Level::Trace",
            LogLevel::Debug => "Level::Debug",
            LogLevel::Info => "Level::Info",
            LogLevel::Warn => "Level::Warn",
            LogLevel::Error => "Level::Error",
        }
    }
}

/// Whether a line came from the guest, or closes the log.
#[derive(Clone, Copy, Debug, PartialEq, Eq, Structural)]
pub enum LogKind {
    /// A line of the guest.
    Message,
    /// The one line that says that further lines were dropped.
    DroppedNotice,
}

/// What is left of a log's budget.
#[derive(Clone, Copy, Debug, PartialEq, Eq, Structural)]
pub struct LogBudget {
    /// What the lines so far were charged.
    pub bytes: usize,
    /// Nothing is logged any more.
    pub dropped: bool,
}

/// What a line is charged.
pub open spec fn charge(line: Seq<char>) -> int {
    byte_count(line) + LOG_ENTRY_BYTES
}

/// What one more line of the guest may be charged at most in all: the last line
/// must still fit behind it.
pub open spec fn message_ceiling() -> int {
    MAX_LOG_BYTES - (MAX_LOG_LINE_BYTES + LOG_ENTRY_BYTES)
}

/// A line without the issued tokens, cut to the line limit.
pub open spec fn clean_line(message: Seq<char>, tokens: Seq<Seq<char>>) -> Seq<char> {
    fitting(redacted(message, longest_first(tokens)), MAX_LOG_LINE_BYTES as int)
}

/// A line as it is kept.
pub ghost struct KeptLine {
    pub level: LogLevel,
    pub text: Seq<char>,
    pub kind: LogKind,
}

/// The budget after a line of the guest, and what is kept of the line.
pub open spec fn logged(budget: LogBudget, level: LogLevel, message: Seq<char>, tokens: Seq<Seq<char>>) -> (
    LogBudget,
    Option<KeptLine>,
) {
    let line = clean_line(message, tokens);
    let notice = clean_line(LOG_DROPPED_MESSAGE@, tokens);
    if budget.dropped {
        (budget, None)
    } else if budget.bytes + charge(line) <= message_ceiling() {
        (
            LogBudget { bytes: (budget.bytes + charge(line)) as usize, dropped: false },
            Some(KeptLine { level, text: line, kind: LogKind::Message }),
        )
    } else {
        (
            LogBudget { bytes: (budget.bytes + charge(notice)) as usize, dropped: true },
            Some(KeptLine { level: LogLevel::Warn, text: notice, kind: LogKind::DroppedNotice }),
        )
    }
}

/// A line to keep.
#[derive(Debug)]
pub struct LogLine {
    pub level: LogLevel,
    pub text: String,
    pub kind: LogKind,
}

impl View for LogLine {
    type V = KeptLine;

    open spec fn view(&self) -> KeptLine {
        KeptLine { level: self.level, text: self.text@, kind: self.kind }
    }
}

/// Takes the issued tokens out of a line and cuts it to the line limit.
pub fn clean(message: &str, tokens: &Vec<String>) -> (line: String)
    ensures
        line@ == clean_line(message@, texts(tokens@)),
        byte_count(line@) <= MAX_LOG_LINE_BYTES,
{
    let mut line = redact(message, tokens);
    proof {
        law_truncation(line@, MAX_LOG_LINE_BYTES as int);
    }
    truncate(&mut line, MAX_LOG_LINE_BYTES);
    line
}

impl LogBudget {
    /// The charges stay within the limit, and the last line still fits where none
    /// was dropped.
    pub open spec fn wf(&self) -> bool {
        self.bytes <= MAX_LOG_BYTES && (!self.dropped ==> self.bytes <= message_ceiling())
    }

    /// A budget of which nothing is spent.
    pub fn new() -> (budget: LogBudget)
        ensures
            budget.wf(),
            budget == (LogBudget { bytes: 0, dropped: false }),
    {
        LogBudget { bytes: 0, dropped: false }
    }

    /// Admits a line of the guest and returns what is kept of it.
    pub fn log(&mut self, level: LogLevel, message: &str, tokens: &Vec<String>) -> (line: Option<LogLine>)
        requires
            old(self).wf(),
        ensures
            final(self).wf(),
            logged(*old(self), level, message@, texts(tokens@)) == (
                *final(self),
                match line {
                    Some(line) => Some(line@),
                    None => None,
                },
            ),
    {
        if self.dropped {
            return None;
        }
        let text = clean(message, tokens);
        let cost = byte_len(text.as_str()) + LOG_ENTRY_BYTES;
        if self.bytes + cost <= MAX_LOG_BYTES - (MAX_LOG_LINE_BYTES + LOG_ENTRY_BYTES) {
            self.bytes += cost;
            Some(LogLine { level, text, kind: LogKind::Message })
        } else {
            let notice = clean(LOG_DROPPED_MESSAGE, tokens);
            self.dropped = true;
            self.bytes += byte_len(notice.as_str()) + LOG_ENTRY_BYTES;
            Some(LogLine { level: LogLevel::Warn, text: notice, kind: LogKind::DroppedNotice })
        }
    }
}

/// A line that the guest writes, and the tokens issued by then.
pub ghost struct WrittenLine {
    pub level: LogLevel,
    pub message: Seq<char>,
    pub tokens: Seq<Seq<char>>,
}

/// The budget and the kept lines after these lines.
pub open spec fn logged_all(budget: LogBudget, lines: Seq<WrittenLine>) -> (LogBudget, Seq<KeptLine>)
    decreases lines.len(),
{
    if lines.len() == 0 {
        (budget, Seq::empty())
    } else {
        let (before, kept) = logged_all(budget, lines.drop_last());
        let last = lines.last();
        match logged(before, last.level, last.message, last.tokens) {
            (after, Some(line)) => (after, kept.push(line)),
            (after, None) => (after, kept),
        }
    }
}

/// What all the lines are charged.
pub open spec fn charges(lines: Seq<KeptLine>) -> int
    decreases lines.len(),
{
    if lines.len() == 0 {
        0
    } else {
        charges(lines.drop_last()) + charge(lines.last().text)
    }
}

/// Whatever the guest writes, its log stays within the limit, no line is longer
/// than a line may be, and a notice of dropped lines is the last line of the log.
pub proof fn law_log_stays_within_budget(lines: Seq<WrittenLine>)
    ensures
        ({
            let (budget, kept) = logged_all(LogBudget { bytes: 0, dropped: false }, lines);
            &&& budget.wf()
            &&& charges(kept) == budget.bytes
            &&& charges(kept) <= MAX_LOG_BYTES
            &&& forall|i: int| 0 <= i < kept.len() ==> byte_count((#[trigger] kept[i]).text) <= MAX_LOG_LINE_BYTES
            &&& forall|i: int|
                0 <= i < kept.len() ==> ((#[trigger] kept[i]).kind == LogKind::DroppedNotice <==> budget.dropped && i
                    == kept.len() - 1)
        }),
    decreases lines.len(),
{
    if lines.len() > 0 {
        let start = LogBudget { bytes: 0, dropped: false };
        law_log_stays_within_budget(lines.drop_last());
        let (before, kept) = logged_all(start, lines.drop_last());
        let last = lines.last();
        law_truncation(redacted(last.message, longest_first(last.tokens)), MAX_LOG_LINE_BYTES as int);
        law_truncation(redacted(LOG_DROPPED_MESSAGE@, longest_first(last.tokens)), MAX_LOG_LINE_BYTES as int);
        match logged(before, last.level, last.message, last.tokens) {
            (after, Some(line)) => {
                assert(kept.push(line).drop_last() =~= kept);
                assert(kept.push(line).last() == line);
            },
            (after, None) => {},
        }
    }
}

/// Once lines were dropped, nothing is kept any more.
pub proof fn law_nothing_follows_the_notice(budget: LogBudget, lines: Seq<WrittenLine>)
    requires
        budget.dropped,
    ensures
        logged_all(budget, lines) == (budget, Seq::<KeptLine>::empty()),
    decreases lines.len(),
{
    if lines.len() > 0 {
        law_nothing_follows_the_notice(budget, lines.drop_last());
    }
}

/// No kept line holds a token that was issued by then.
pub proof fn law_no_line_holds_a_token(message: Seq<char>, tokens: Seq<Seq<char>>, token: Seq<char>)
    requires
        tokens.contains(token),
        token.len() > 0,
    ensures
        !occurs(clean_line(message, tokens), token),
{
    let whole = redacted(message, longest_first(tokens));
    let line = clean_line(message, tokens);
    law_redaction_removes_issued_tokens(message, tokens, token);
    law_truncation(whole, MAX_LOG_LINE_BYTES as int);
    if occurs(line, token) {
        let position = choose|position: int| occurs_at(line, token, position);
        assert(whole.subrange(position, position + token.len()) =~= line.subrange(position, position + token.len()))
            by {
            assert(line == whole.subrange(0, line.len() as int));
        }
        assert(occurs_at(whole, token, position));
    }
}

/// A line stays as it is where it holds no token and fits.
pub proof fn law_clean_lines_are_kept(message: Seq<char>, tokens: Seq<Seq<char>>)
    requires
        forall|i: int| 0 <= i < tokens.len() ==> !occurs(message, #[trigger] tokens[i]),
        byte_count(message) <= 4096,
    ensures
        clean_line(message, tokens) == message,
{
    let ordered = longest_first(tokens);
    law_tokens_are_ordered(tokens);
    if any_occurs(ordered, message) {
        let i = choose|i: int| 0 <= i < ordered.len() && occurs(message, #[trigger] ordered[i]);
        assert(ordered.contains(ordered[i]));
        assert(tokens.contains(ordered[i]));
        let j = choose|j: int| 0 <= j < tokens.len() && tokens[j] == ordered[i];
        assert(!occurs(message, tokens[j]));
    }
    law_text_without_tokens_is_kept(message, ordered);
    law_truncation(message, MAX_LOG_LINE_BYTES as int);
}

/// A line that fits the budget is kept with its level; the first that does not is replaced by a
/// warning that lines were dropped, which ends the log.
pub proof fn law_lines_are_kept_until_the_budget_ends(
    budget: LogBudget,
    level: LogLevel,
    message: Seq<char>,
    tokens: Seq<Seq<char>>,
)
    requires
        budget.wf(),
        !budget.dropped,
    ensures
        ({
            let (after, kept) = logged(budget, level, message, tokens);
            let line = clean_line(message, tokens);
            &&& kept is Some
            &&& budget.bytes + byte_count(line) + LOG_ENTRY_BYTES <= MAX_LOG_BYTES - MAX_LOG_LINE_BYTES - LOG_ENTRY_BYTES
                ==> kept->0.text == line && kept->0.level == level && kept->0.kind == LogKind::Message && !after.dropped
                && after.bytes == budget.bytes + byte_count(line) + LOG_ENTRY_BYTES
            &&& budget.bytes + byte_count(line) + LOG_ENTRY_BYTES > MAX_LOG_BYTES - MAX_LOG_LINE_BYTES - LOG_ENTRY_BYTES
                ==> kept->0.text == clean_line(LOG_DROPPED_MESSAGE@, tokens) && kept->0.level == LogLevel::Warn && kept->0.kind
                == LogKind::DroppedNotice && after.dropped
        }),
{
    law_truncation(redacted(message, longest_first(tokens)), MAX_LOG_LINE_BYTES as int);
    law_truncation(redacted(LOG_DROPPED_MESSAGE@, longest_first(tokens)), MAX_LOG_LINE_BYTES as int);
}

/// The levels of the log are told apart.
pub proof fn law_log_levels(level: LogLevel)
    ensures
        level == LogLevel::Trace ==> level.text_spec() == "Level::Trace"@,
        level == LogLevel::Debug ==> level.text_spec() == "Level::Debug"@,
        level == LogLevel::Info ==> level.text_spec() == "Level::Info"@,
        level == LogLevel::Warn ==> level.text_spec() == "Level::Warn"@,
        level == LogLevel::Error ==> level.text_spec() == "Level::Error"@,
{
}

} // verus!
