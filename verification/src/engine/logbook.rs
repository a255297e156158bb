//! The log that the window shows.

use crate::clock::{is_stamp, time_of_day};
use crate::text::texts;
use std::collections::VecDeque;
use vstd::prelude::*;

verus! {

/// The lines of a log, the oldest first, and how many of them it keeps.
pub struct LogView {
    pub lines: Seq<Seq<char>>,
    pub limit: nat,
}

/// A message with the time of day in front of it.
pub open spec fn stamped(time: Seq<char>, message: Seq<char>) -> Seq<char> {
    "["@ + time + "] "@ + message
}

/// The last lines, as many as are kept.
pub open spec fn newest_lines(lines: Seq<Seq<char>>, limit: nat) -> Seq<Seq<char>> {
    if lines.len() <= limit {
        lines
    } else {
        lines.skip(lines.len() - limit)
    }
}

/// The log after one more line.
pub open spec fn logged(before: LogView, line: Seq<char>) -> LogView {
    LogView { lines: newest_lines(before.lines.push(line), before.limit), ..before }
}

/// Whether a log is another after one more message, whatever the time of day was.
pub open spec fn noted(before: LogView, message: Seq<char>, after: LogView) -> bool {
    exists|time: Seq<char>|
        is_stamp(time) && after == #[trigger] logged(before, stamped(time, message))
}

/// The log.
pub struct LogBook {
    pub lines: VecDeque<String>,
    /// Lines that are kept; beyond them each new line drops the oldest.
    pub limit: usize,
}

impl View for LogBook {
    type V = LogView;

    open spec fn view(&self) -> LogView {
        LogView { lines: texts(self.lines@), limit: self.limit as nat }
    }
}

/// Puts the time of day in front of a message.
pub fn stamp(time: &str, message: &str) -> (line: String)
    ensures
        line@ == stamped(time@, message@),
{
    let mut line: String = "[".to_owned();
    line.append(time);
    line.append("] ");
    line.append(message);
    line
}

impl LogBook {
    /// The log holds no more lines than it keeps.
    pub open spec fn wf(&self) -> bool {
        self.lines@.len() <= self.limit
    }

    /// A log of the last of some lines, as many as are kept.
    pub fn of(lines: Vec<String>, limit: usize) -> (book: LogBook)
        ensures
            book@ == (LogView {
                lines: newest_lines(texts(lines@), limit as nat),
                limit: limit as nat,
            }),
            book.wf(),
    {
        let mut queue: VecDeque<String> = VecDeque::new();
        let mut i: usize = if lines.len() > limit {
            lines.len() - limit
        } else {
            0
        };
        let ghost from = i as int;
        while i < lines.len()
            invariant
                0 <= from <= i <= lines.len(),
                queue@ == lines@.subrange(from, i as int),
            decreases lines.len() - i,
        {
            queue.push_back(lines[i].clone());
            assert(lines@.subrange(from, i + 1) =~= lines@.subrange(from, i as int).push(
                lines@[i as int],
            ));
            i += 1;
        }
        let book = LogBook { lines: queue, limit };
        assert(texts(queue@) =~= newest_lines(texts(lines@), limit as nat));
        book
    }

    /// Adds a message with a given time of day.
    pub fn note_at(&mut self, time: &str, message: &str)
        ensures
            final(self)@ == logged(old(self)@, stamped(time@, message@)),
            final(self).wf(),
    {
        let line: String = stamp(time, message);
        self.lines.push_back(line);
        let ghost all = self.lines@;
        let ghost kept = self.limit;
        assert(texts(all) =~= texts(old(self).lines@).push(line@));
        while self.lines.len() > self.limit
            invariant
                self.limit == kept,
                self.lines@.len() <= all.len(),
                self.lines@ == all.skip(all.len() - self.lines@.len()),
                self.lines@.len() >= kept || self.lines@ == all,
            decreases self.lines@.len(),
        {
            let ghost before = self.lines@;
            let _oldest: Option<String> = self.lines.pop_front();
            assert(self.lines@ =~= before.skip(1));
            assert(self.lines@ =~= all.skip(all.len() - self.lines@.len()));
        }
        assert(texts(self.lines@) =~= newest_lines(texts(all), kept as nat));
    }

    /// Adds a message with the present time of day.
    pub fn note(&mut self, message: &str)
        ensures
            noted(old(self)@, message@, final(self)@),
            final(self).wf(),
    {
        let time: String = time_of_day();
        self.note_at(time.as_str(), message);
    }

    /// A copy of the lines, the oldest first.
    pub fn copy(&self) -> (lines: Vec<String>)
        ensures
            texts(lines@) == self@.lines,
            lines@ == self.lines@,
    {
        let mut lines: Vec<String> = Vec::new();
        let mut i: usize = 0;
        while i < self.lines.len()
            invariant
                i <= self.lines@.len(),
                lines@ == self.lines@.take(i as int),
            decreases self.lines@.len() - i,
        {
            lines.push(self.lines[i].clone());
            assert(self.lines@.take(i + 1) =~= self.lines@.take(i as int).push(
                self.lines@[i as int],
            ));
            i += 1;
        }
        assert(self.lines@.take(i as int) =~= self.lines@);
        lines
    }
}

/// A log never holds more lines than it keeps. One that is not full grows by exactly one line, a
/// full one drops its oldest, and the newest message always comes last.
pub proof fn law_log_bounded(before: LogView, message: Seq<char>, after: LogView)
    requires
        noted(before, message, after),
    ensures
        after.limit == before.limit,
        after.lines.len() <= after.limit,
        before.lines.len() < before.limit ==> after.lines.len() == before.lines.len() + 1
            && after.lines.drop_last() == before.lines,
        0 < before.lines.len() == before.limit ==> after.lines.drop_last() == before.lines.skip(1),
        before.limit > 0 ==> exists|time: Seq<char>|
            is_stamp(time) && after.lines.last() == #[trigger] stamped(time, message),
{
    let time = choose|time: Seq<char>|
        is_stamp(time) && after == #[trigger] logged(before, stamped(time, message));
    let all = before.lines.push(stamped(time, message));
    assert(all.last() == stamped(time, message));
    if before.lines.len() < before.limit {
        assert(after.lines.drop_last() =~= before.lines);
    }
    if 0 < before.lines.len() == before.limit {
        assert(after.lines.drop_last() =~= before.lines.skip(1));
    }
    if before.limit > 0 {
        assert(after.lines.last() == all.last());
    }
}

} // verus!
