//! What a session tells the user.

use vstd::prelude::*;
use crate::text;

verus! {

/// How grave a notification is.
#[derive(Copy, Clone, Debug, PartialEq, Eq, Structural)]
pub enum Severity {
    Warning,
    Error,
}

/// What is to be shown to the user until dismissed.
#[derive(Debug)]
pub struct Notification {
    pub severity: Severity,
    pub messages: Vec<String>,
}

/// The log, the lines of it that have not been printed yet, and what is to be
/// shown to the user.
#[derive(Debug)]
pub struct Journal {
    pub log: Vec<String>,
    pub unprinted: Vec<String>,
    pub notification: Option<Notification>,
}

/// What is to be shown to the user, as text.
#[verifier::ext_equal]
pub struct Note {
    pub severity: Severity,
    pub messages: Seq<Seq<char>>,
}

/// The log, what is to be printed of it and the notification, as text.
#[verifier::ext_equal]
pub struct Told {
    pub log: Seq<Seq<char>>,
    pub unprinted: Seq<Seq<char>>,
    pub note: Option<Note>,
}

impl View for Journal {
    type V = Told;

    open spec fn view(&self) -> Told {
        Told {
            log: text::texts(self.log@),
            unprinted: text::texts(self.unprinted@),
            note: match self.notification {
                Some(n) => Some(
                    Note { severity: n.severity, messages: text::texts(n.messages@) },
                ),
                None => None,
            },
        }
    }
}

/// How many lines the log keeps.
pub const LOG_LIMIT: usize = 500;

/// The last lines of a log, as many as it keeps.
pub open spec fn last_lines(log: Seq<Seq<char>>) -> Seq<Seq<char>> {
    if log.len() > LOG_LIMIT {
        log.skip(log.len() - LOG_LIMIT)
    } else {
        log
    }
}

/// The journal with a line more in its log, which is to be printed too.
pub open spec fn logged(t: Told, line: Seq<char>) -> Told {
    Told {
        log: last_lines(t.log.push(line)),
        unprinted: t.unprinted.push(line),
        note: t.note,
    }
}

/// The notification with a message more; one error makes it an error.
pub open spec fn noted(note: Option<Note>, severity: Severity, message: Seq<char>) -> Note {
    match note {
        Some(n) => Note {
            severity: if severity == Severity::Error {
                Severity::Error
            } else {
                n.severity
            },
            messages: n.messages.push(message),
        },
        None => Note { severity, messages: seq![message] },
    }
}

/// The journal with a message more, which is logged too.
pub open spec fn notified(t: Told, severity: Severity, message: Seq<char>) -> Told {
    Told {
        log: last_lines(t.log.push(message)),
        unprinted: t.unprinted.push(message),
        note: Some(noted(t.note, severity, message)),
    }
}

/// The journal with the first `k` lines more in its log.
pub open spec fn logged_all(t: Told, lines: Seq<Seq<char>>, k: nat) -> Told
    decreases k,
{
    if k == 0 {
        t
    } else {
        logged(logged_all(t, lines, (k - 1) as nat), lines[k - 1])
    }
}

/// The journal with the first `k` messages more.
pub open spec fn notified_all(t: Told, severity: Severity, messages: Seq<Seq<char>>, k: nat) -> Told
    decreases k,
{
    if k == 0 {
        t
    } else {
        notified(notified_all(t, severity, messages, (k - 1) as nat), severity, messages[k - 1])
    }
}

impl Journal {
    /// A journal without entries.
    pub fn new() -> (r: Self)
        ensures
            r@ == (Told { log: Seq::empty(), unprinted: Seq::empty(), note: None }),
    {
        let r = Journal { log: Vec::new(), unprinted: Vec::new(), notification: None };
        assert(text::texts(r.log@) =~= Seq::<Seq<char>>::empty());
        assert(text::texts(r.unprinted@) =~= Seq::<Seq<char>>::empty());
        r
    }

    /// Adds a line to the log, which keeps its last lines only.
    pub fn log(&mut self, line: &str)
        ensures
            final(self)@ == logged(old(self)@, line@),
    {
        text::push_text(&mut self.unprinted, line);
        text::push_text(&mut self.log, line);
        let ghost fresh = self.unprinted;
        let ghost all = text::texts(self.log@);
        let ghost mut gone: int = 0;
        assert(all.skip(0) =~= all);
        while self.log.len() > LOG_LIMIT
            invariant
                0 <= gone <= all.len(),
                text::texts(self.log@) == all.skip(gone),
                gone > 0 ==> self.log@.len() >= LOG_LIMIT,
                self.unprinted == fresh,
                self.notification == old(self).notification,
            decreases self.log@.len(),
        {
            let ghost before = self.log@;
            let _ = self.log.remove(0);
            proof {
                assert(self.log@ =~= before.skip(1));
                assert(text::texts(before).len() == before.len());
                assert(text::texts(self.log@) =~= text::texts(before).skip(1));
                gone = gone + 1;
                assert(text::texts(self.log@) =~= all.skip(gone));
            }
        }
        assert(self@ =~~= logged(old(self)@, line@));
    }

    /// Adds a message to the log and to what is shown.
    pub fn notify(&mut self, severity: Severity, message: &str)
        ensures
            final(self)@ == notified(old(self)@, severity, message@),
    {
        self.log(message);
        let mut kept: Option<Notification> = None;
        std::mem::swap(&mut kept, &mut self.notification);
        let next = match kept {
            Some(n) => {
                let mut messages = n.messages;
                let worst = if severity == Severity::Error {
                    Severity::Error
                } else {
                    n.severity
                };
                text::push_text(&mut messages, message);
                Notification { severity: worst, messages }
            },
            None => {
                let mut messages: Vec<String> = Vec::new();
                text::push_text(&mut messages, message);
                assert(text::texts(messages@) =~= seq![message@]);
                Notification { severity, messages }
            },
        };
        self.notification = Some(next);
        assert(self@ =~~= notified(old(self)@, severity, message@));
    }

    /// Adds an error.
    pub fn notify_error(&mut self, message: &str)
        ensures
            final(self)@ == notified(old(self)@, Severity::Error, message@),
    {
        self.notify(Severity::Error, message);
    }

    /// Adds a warning.
    pub fn notify_warning(&mut self, message: &str)
        ensures
            final(self)@ == notified(old(self)@, Severity::Warning, message@),
    {
        self.notify(Severity::Warning, message);
    }

    /// Logs a list of lines and then adds a list of warnings.
    pub fn catch_up(&mut self, lines: &Vec<String>, warnings: &Vec<String>)
        ensures
            final(self)@ == notified_all(
                logged_all(old(self)@, text::texts(lines@), lines@.len()),
                Severity::Warning,
                text::texts(warnings@),
                warnings@.len(),
            ),
    {
        let ghost start = self@;
        let mut i: usize = 0;
        while i < lines.len()
            invariant
                i <= lines@.len(),
                self@ == logged_all(start, text::texts(lines@), i as nat),
            decreases lines@.len() - i,
        {
            assert(text::texts(lines@)[i as int] == lines@[i as int]@);
            self.log(lines[i].as_str());
            i += 1;
        }
        let ghost middle = self@;
        let mut k: usize = 0;
        while k < warnings.len()
            invariant
                k <= warnings@.len(),
                self@ == notified_all(middle, Severity::Warning, text::texts(warnings@), k as nat),
            decreases warnings@.len() - k,
        {
            assert(text::texts(warnings@)[k as int] == warnings@[k as int]@);
            self.notify_warning(warnings[k].as_str());
            k += 1;
        }
    }

    /// Removes what is shown; the log stays.
    pub fn dismiss(&mut self)
        ensures
            final(self)@ == (Told { note: None, ..old(self)@ }),
    {
        self.notification = None;
    }

    /// Hands out the lines that have not been printed yet, the oldest first.
    pub fn take_unprinted(&mut self) -> (r: Vec<String>)
        ensures
            text::texts(r@) == old(self)@.unprinted,
            final(self)@ == (Told { unprinted: Seq::empty(), ..old(self)@ }),
    {
        let mut lines: Vec<String> = Vec::new();
        std::mem::swap(&mut lines, &mut self.unprinted);
        assert(text::texts(self.unprinted@) =~= Seq::<Seq<char>>::empty());
        lines
    }
}

/// The heading over a notification.
pub fn severity_title(s: Severity) -> (r: &'static str)
    ensures
        r@ == match s {
            Severity::Error => "Error"@,
            Severity::Warning => "Warning"@,
        },
{
    match s {
        Severity::Error => "Error",
        Severity::Warning => "Warning",
    }
}

// -------------------------------------------------------------------- laws --

/// The log never grows beyond its limit, and the newest line is in it.
pub proof fn law_log_is_bounded(t: Told, line: Seq<char>)
    ensures
        logged(t, line).log.len() <= LOG_LIMIT,
        logged(t, line).log.last() == line,
{
}

/// Every line waits to be printed, once and in order, however many the log
/// keeps.
pub proof fn law_every_line_waits_for_print(t: Told, lines: Seq<Seq<char>>, k: nat)
    requires
        k <= lines.len(),
    ensures
        logged_all(t, lines, k).unprinted == t.unprinted + lines.take(k as int),
    decreases k,
{
    if k == 0 {
        assert(t.unprinted + lines.take(0) =~= t.unprinted);
    } else {
        law_every_line_waits_for_print(t, lines, (k - 1) as nat);
        assert(lines.take(k as int) =~= lines.take(k - 1).push(lines[k - 1]));
        assert(t.unprinted + lines.take(k as int) =~= (t.unprinted + lines.take(k - 1)).push(
            lines[k - 1],
        ));
    }
}

/// An error stays one until it is dismissed, and no message is lost.
pub proof fn law_errors_stay(t: Told, severity: Severity, message: Seq<char>)
    requires
        t.note is Some,
    ensures
        ({
            let after = notified(t, severity, message).note->0;
            &&& t.note->0.severity == Severity::Error ==> after.severity == Severity::Error
            &&& severity == Severity::Error ==> after.severity == Severity::Error
            &&& after.messages == t.note->0.messages.push(message)
        }),
{
}

/// The log keeps its last 500 lines: below that a line more is added to all the
/// others, and then the oldest goes for each new one.
pub proof fn law_log_keeps_the_newest_lines(t: Told, line: Seq<char>)
    ensures
        t.log.len() < 500 ==> logged(t, line).log == t.log.push(line),
        t.log.len() == 500 ==> logged(t, line).log == t.log.skip(1).push(line),
        logged(t, line).note == t.note,
{
    if t.log.len() == 500 {
        assert(t.log.push(line).skip(1) =~= t.log.skip(1).push(line));
    }
}

/// A message is logged like a line, and shown behind the messages that are shown
/// already; the first one is as grave as it is said to be.
pub proof fn law_messages_are_logged_and_shown(t: Told, severity: Severity, message: Seq<char>)
    ensures
        notified(t, severity, message).log == logged(t, message).log,
        notified(t, severity, message).unprinted == logged(t, message).unprinted,
        notified(t, severity, message).note is Some,
        t.note is None ==> notified(t, severity, message).note->0 == (Note {
            severity,
            messages: seq![message],
        }),
{
}

/// Several messages are shown and printed in order, none of them lost.
pub proof fn law_every_message_is_shown(
    t: Told,
    severity: Severity,
    messages: Seq<Seq<char>>,
    k: nat,
)
    requires
        k <= messages.len(),
    ensures
        ({
            let after = notified_all(t, severity, messages, k);
            let before = match t.note {
                Some(n) => n.messages,
                None => Seq::empty(),
            };
            &&& after.unprinted == t.unprinted + messages.take(k as int)
            &&& k > 0 ==> after.note is Some && after.note->0.messages == before + messages.take(
                k as int,
            )
            &&& k == 0 ==> after == t
        }),
    decreases k,
{
    let before = match t.note {
        Some(n) => n.messages,
        None => Seq::empty(),
    };
    if k == 0 {
        assert(t.unprinted + messages.take(0) =~= t.unprinted);
    } else {
        law_every_message_is_shown(t, severity, messages, (k - 1) as nat);
        assert(messages.take(k as int) =~= messages.take(k - 1).push(messages[k - 1]));
        assert(t.unprinted + messages.take(k as int) =~= (t.unprinted + messages.take(k - 1)).push(
            messages[k - 1],
        ));
        assert(before + messages.take(k as int) =~= (before + messages.take(k - 1)).push(
            messages[k - 1],
        ));
        if k == 1 {
            assert(before + messages.take(0) =~= before);
        }
    }
}

} // verus!
