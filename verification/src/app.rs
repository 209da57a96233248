//! The typing session: the book, its layout, the sample being typed and the
//! record of attempts.

use crate::layout::{generate_lines, indexes, rows, wrapped_lines};
use crate::log::{recent_lengths, Attempt, KeyPress, PerformanceLog};
use crate::scheduler::{law_exhausted, next_sample, scheduled, sum, total, MIN_LENGTH};
use vstd::prelude::*;

verus! {

/// What one keystroke leaves to be stored: the keystroke itself and, where it
/// ended an attempt, that attempt.
#[derive(Clone, Copy, Debug, PartialEq, Eq, Structural)]
pub struct Step {
    pub keypress: KeyPress,
    pub attempt: Option<Attempt>,
}

/// Why a keystroke was not taken.
#[derive(Clone, Copy, Debug, PartialEq, Eq, Structural)]
pub enum AppError {
    /// The session is over: the user quit or the book is exhausted.
    Finished,
    /// The clock gave a time that does not fit the records.
    ClockOutOfRange,
}

/// The typing session.
#[derive(Debug)]
pub struct App {
    running: bool,
    book_text: Vec<char>,
    log: PerformanceLog,
    max_line_len: usize,
    book_lines: Vec<Vec<char>>,
    line_index: Vec<(usize, usize)>,
    sample_start_index: usize,
    sample_len: usize,
    start_time: i64,
    cur_char: usize,
    following_typing: bool,
    display_line: usize,
}

/// The session as plain values.
pub struct AppView {
    /// Whether the session goes on.
    pub running: bool,
    /// The text of the book.
    pub book: Seq<char>,
    /// The attempts so far, oldest first.
    pub log: Seq<Attempt>,
    /// The width the text is wrapped at.
    pub max_line_len: usize,
    /// The display lines.
    pub lines: Seq<Seq<char>>,
    /// For each character offset its line and column.
    pub index: Seq<(usize, usize)>,
    /// Where the sample starts in the book.
    pub sample_start_index: usize,
    /// The number of characters in the sample.
    pub sample_len: usize,
    /// The number of characters of the sample typed so far.
    pub cur_char: usize,
    /// When the attempt began.
    pub start_time: i64,
    /// Whether the display follows the cursor.
    pub following_typing: bool,
    /// The line the display is centred on.
    pub display_line: usize,
}

impl AppView {
    /// The layout is that of the book at the current width, and while the
    /// session runs the sample is the one scheduled for the log, with the
    /// cursor inside it.
    pub open spec fn valid(self) -> bool {
        &&& self.book.len() <= usize::MAX
        &&& self.lines == wrapped_lines(self.book, self.max_line_len as int)
        &&& self.index.len() == self.book.len()
        &&& indexes(self.book, self.lines, self.index)
        &&& self.running ==> {
            &&& scheduled(self.log, self.book) == Some(
                (self.sample_start_index as int, self.sample_len as int),
            )
            &&& self.cur_char < self.sample_len
        }
    }

    /// The session has just begun on `book` with the attempts in `log`,
    /// wrapped at `max_line_len`: nothing is typed yet, the display follows
    /// the cursor and shows the line on which the scheduled sample starts.
    /// Where the book is exhausted the session does not run.
    pub open spec fn begins(self, book: Seq<char>, log: Seq<Attempt>, max_line_len: usize) -> bool {
        &&& self.valid()
        &&& self.book == book
        &&& self.log == log
        &&& self.max_line_len == max_line_len
        &&& self.cur_char == 0
        &&& self.following_typing
        &&& match scheduled(log, book) {
            Some((start, length)) => {
                &&& self.running
                &&& self.sample_start_index == start
                &&& self.sample_len == length
                &&& self.display_line == self.index[start].0
            },
            None => {
                &&& !self.running
                &&& self.sample_start_index == 0
                &&& self.sample_len == 0
                &&& self.display_line == 0
            },
        }
    }

    /// Whether `c` is the character the cursor stands on.
    pub open spec fn expects(self, c: char) -> bool {
        c == self.book[self.sample_start_index + self.cur_char]
    }

    /// Whether typing `c` ends the attempt: it is wrong, or it is the last
    /// character of the sample.
    pub open spec fn ends_attempt(self, c: char) -> bool {
        !self.expects(c) || self.cur_char + 1 == self.sample_len
    }

    /// The attempt that typing `c` at the time `now` ends.
    pub open spec fn ended_attempt(self, c: char, now: i64) -> Attempt {
        Attempt {
            succeeded: self.expects(c),
            start_index: self.sample_start_index,
            end_index: (self.sample_start_index + self.cur_char + if self.expects(c) {
                1int
            } else {
                0int
            }) as usize,
            started: self.start_time,
            completed: now,
        }
    }

    /// The session after `c` was typed at the time `now`. A right character
    /// moves the cursor on. A wrong character, or the last one of the
    /// sample, ends the attempt: it is added to the log, and the next sample
    /// is scheduled; where the book is exhausted the session stops.
    pub open spec fn typed(self, c: char, now: i64) -> AppView {
        if !self.ends_attempt(c) {
            AppView { cur_char: (self.cur_char + 1) as usize, following_typing: true, ..self }
        } else {
            let log = self.log.push(self.ended_attempt(c, now));
            match scheduled(log, self.book) {
                Some((start, length)) => AppView {
                    log,
                    sample_start_index: start as usize,
                    sample_len: length as usize,
                    cur_char: 0,
                    start_time: now,
                    following_typing: true,
                    ..self
                },
                None => AppView {
                    running: false,
                    log,
                    cur_char: 0,
                    start_time: now,
                    following_typing: true,
                    ..self
                },
            }
        }
    }

    /// The line the display is centred on when it is drawn: the cursor's line
    /// while the display follows the typing, and never beyond the last line.
    pub open spec fn settled_line(self) -> usize {
        let wanted = if self.following_typing && self.running {
            self.index[self.sample_start_index + self.cur_char].0
        } else {
            self.display_line
        };
        if wanted < self.lines.len() {
            wanted
        } else {
            self.lines.len() as usize
        }
    }

    /// What typing `c` at the time `now` leaves to be stored.
    pub open spec fn step(self, c: char, now: i64) -> Step {
        Step {
            keypress: KeyPress { correct: self.expects(c), key: c, time: now },
            attempt: if self.ends_attempt(c) {
                Some(self.ended_attempt(c, now))
            } else {
                None
            },
        }
    }
}

/// The mean length of the newest 10 attempts that count; the sum is divided
/// by 10 however many there are.
pub open spec fn rolling_average(log: Seq<Attempt>) -> int {
    sum(recent_lengths(log, 10, MIN_LENGTH)) / 10
}

/// Only success moves the sample on: after a keystroke the sample starts
/// where it started before, unless the keystroke completed the sample, and
/// then it starts where that sample ended. The session stops exactly when the
/// completed sample ended at the book's last character but one.
pub proof fn law_progress(v: AppView, c: char, now: i64)
    requires
        v.valid(),
        v.running,
    ensures
        v.typed(c, now).valid(),
        v.typed(c, now).running ==> v.typed(c, now).sample_start_index == if v.expects(c)
            && v.cur_char + 1 == v.sample_len {
            v.sample_start_index + v.sample_len
        } else {
            v.sample_start_index as int
        },
        !v.typed(c, now).running <==> v.expects(c) && v.cur_char + 1 == v.sample_len
            && v.sample_start_index + v.sample_len == v.book.len() - 1,
{
    law_exhausted(v.log, v.book);
    if v.ends_attempt(c) {
        let log = v.log.push(v.ended_attempt(c, now));
        assert(log.drop_last() =~= v.log);
        law_exhausted(log, v.book);
    }
}

/// Reads the clock with `std::time::SystemTime::now`, turns the reading into
/// a `chrono::DateTime<chrono::Utc>` with chrono's conversion from
/// `SystemTime`, and gives it in nanoseconds since the Unix epoch, as
/// `chrono::DateTime::timestamp_nanos_opt` does: `None` where it does not fit.
/// The conversion takes a clock that stands before the epoch as a negative
/// time; it gives up only on a time outside the years that chrono holds, some
/// 262,000 to either side. Nothing is claimed of the result.
#[verifier::external_body]
fn now_nanos() -> (now: Option<i64>) {
    chrono::DateTime::<chrono::Utc>::from(std::time::SystemTime::now()).timestamp_nanos_opt()
}

impl View for App {
    type V = AppView;

    closed spec fn view(&self) -> AppView {
        AppView {
            running: self.running,
            book: self.book_text@,
            log: self.log@,
            max_line_len: self.max_line_len,
            lines: rows(self.book_lines@),
            index: self.line_index@,
            sample_start_index: self.sample_start_index,
            sample_len: self.sample_len,
            cur_char: self.cur_char,
            start_time: self.start_time,
            following_typing: self.following_typing,
            display_line: self.display_line,
        }
    }
}

impl App {
    /// Whether the session holds what it promises of its layout and sample.
    pub open spec fn wf(&self) -> bool {
        self@.valid()
    }

    /// A session on `book_text` with the attempts in `log`, wrapped at
    /// `max_line_len`, whose first attempt begins at the time `now`. Where
    /// the book is exhausted from the start the session does not run.
    pub fn new(book_text: Vec<char>, log: PerformanceLog, max_line_len: usize, now: i64) -> (app:
        App)
        ensures
            app@.begins(book_text@, log@, max_line_len),
            app@.start_time == now,
    {
        let (book_lines, line_index) = generate_lines(&book_text, max_line_len);
        let sample = next_sample(&log, &book_text);
        let (running, sample_start_index, sample_len, display_line) = match sample {
            Some((start, length)) => (true, start, length, line_index[start].0),
            None => (false, 0, 0, 0),
        };
        App {
            running,
            book_text,
            log,
            max_line_len,
            book_lines,
            line_index,
            sample_start_index,
            sample_len,
            start_time: now,
            cur_char: 0,
            following_typing: true,
            display_line,
        }
    }

    /// A session as `new` makes it, whose first attempt begins now, whatever
    /// time the clock gives.
    pub fn start(book_text: Vec<char>, log: PerformanceLog, max_line_len: usize) -> (out: Result<
        App,
        AppError,
    >)
        ensures
            match out {
                Ok(app) => app@.begins(book_text@, log@, max_line_len),
                Err(e) => e == AppError::ClockOutOfRange,
            },
    {
        match now_nanos() {
            Some(now) => Ok(App::new(book_text, log, max_line_len, now)),
            None => Err(AppError::ClockOutOfRange),
        }
    }

    /// Ends the session.
    pub fn quit(&mut self)
        ensures
            final(self)@ == (AppView { running: false, ..old(self)@ }),
    {
        self.running = false;
    }

    /// Takes the character `c`, typed at the time `now`. Nothing happens
    /// where the session is over; otherwise the session moves on as `typed`
    /// says, and what is to be stored is returned.
    pub fn apply_keystroke(&mut self, c: char, now: i64) -> (out: Option<Step>)
        requires
            old(self).wf(),
        ensures
            final(self).wf(),
            !old(self)@.running ==> out is None && final(self)@ == old(self)@,
            old(self)@.running ==> out == Some(old(self)@.step(c, now)) && final(self)@ == old(
                self,
            )@.typed(c, now),
    {
        if !self.running {
            return None;
        }
        proof {
            law_exhausted(self.log@, self.book_text@);
        }
        let correct: bool = c == self.book_text[self.sample_start_index + self.cur_char];
        self.following_typing = true;
        if correct {
            self.cur_char += 1;
        }
        let keypress = KeyPress { correct, key: c, time: now };
        if !correct || self.cur_char == self.sample_len {
            let attempt = Attempt {
                succeeded: correct,
                start_index: self.sample_start_index,
                end_index: self.sample_start_index + self.cur_char,
                started: self.start_time,
                completed: now,
            };
            self.log.append(attempt);
            self.start_time = now;
            self.cur_char = 0;
            match next_sample(&self.log, &self.book_text) {
                Some((start, length)) => {
                    self.sample_start_index = start;
                    self.sample_len = length;
                },
                None => {
                    self.running = false;
                },
            }
            Some(Step { keypress, attempt: Some(attempt) })
        } else {
            Some(Step { keypress, attempt: None })
        }
    }

    /// Takes the character `c`, typed now. Whatever time the clock gives,
    /// the session moves on as `apply_keystroke` says for that time, which
    /// is the time of the keystroke returned.
    pub fn handle_char(&mut self, c: char) -> (out: Result<Step, AppError>)
        requires
            old(self).wf(),
        ensures
            final(self).wf(),
            match out {
                Ok(step) => {
                    &&& old(self)@.running
                    &&& step == old(self)@.step(c, step.keypress.time)
                    &&& final(self)@ == old(self)@.typed(c, step.keypress.time)
                },
                Err(AppError::Finished) => !old(self)@.running && final(self)@ == old(self)@,
                Err(AppError::ClockOutOfRange) => old(self)@.running && final(self)@ == old(
                    self,
                )@,
            },
    {
        if !self.running {
            return Err(AppError::Finished);
        }
        match now_nanos() {
            Some(now) => match self.apply_keystroke(c, now) {
                Some(step) => Ok(step),
                None => Err(AppError::Finished),
            },
            None => Err(AppError::ClockOutOfRange),
        }
    }

    /// Wraps the book anew at the width `max_line_len`.
    pub fn resize(&mut self, max_line_len: usize)
        requires
            old(self).wf(),
        ensures
            final(self).wf(),
            final(self)@ == (AppView {
                max_line_len,
                lines: final(self)@.lines,
                index: final(self)@.index,
                ..old(self)@
            }),
    {
        let (book_lines, line_index) = generate_lines(&self.book_text, max_line_len);
        self.max_line_len = max_line_len;
        self.book_lines = book_lines;
        self.line_index = line_index;
    }

    /// Stops following the cursor and moves the display up by `lines` lines,
    /// as far as the first line.
    pub fn scroll_up(&mut self, lines: usize)
        ensures
            final(self)@ == (AppView {
                following_typing: false,
                display_line: if old(self)@.display_line >= lines {
                    (old(self)@.display_line - lines) as usize
                } else {
                    0
                },
                ..old(self)@
            }),
    {
        self.following_typing = false;
        self.display_line = if self.display_line >= lines {
            self.display_line - lines
        } else {
            0
        };
    }

    /// Stops following the cursor and moves the display down by `lines`
    /// lines, as far as the machine's integers reach.
    pub fn scroll_down(&mut self, lines: usize)
        ensures
            final(self)@ == (AppView {
                following_typing: false,
                display_line: if old(self)@.display_line + lines <= usize::MAX {
                    (old(self)@.display_line + lines) as usize
                } else {
                    usize::MAX
                },
                ..old(self)@
            }),
    {
        self.following_typing = false;
        self.display_line = if self.display_line <= usize::MAX - lines {
            self.display_line + lines
        } else {
            usize::MAX
        };
    }

    /// Makes the display follow the cursor again.
    pub fn follow(&mut self)
        ensures
            final(self)@ == (AppView { following_typing: true, ..old(self)@ }),
    {
        self.following_typing = true;
    }

    /// Centres the display for drawing, and gives the line it is centred on.
    pub fn settle_display(&mut self) -> (line: usize)
        requires
            old(self).wf(),
        ensures
            final(self).wf(),
            line == old(self)@.settled_line(),
            final(self)@ == (AppView { display_line: line, ..old(self)@ }),
    {
        if self.following_typing && self.running {
            proof {
                law_exhausted(self.log@, self.book_text@);
            }
            self.display_line = self.line_index[self.sample_start_index + self.cur_char].0;
        }
        if self.display_line > self.book_lines.len() {
            self.display_line = self.book_lines.len();
        }
        self.display_line
    }

    /// The line and column at which the sample starts, at which the cursor
    /// stands, and at which the sample ends, while the session runs.
    pub fn sample_bounds(&self) -> (bounds: Option<((usize, usize), (usize, usize), (usize, usize))>)
        requires
            self.wf(),
        ensures
            bounds is Some <==> self@.running,
            bounds matches Some((start, cursor, end)) ==> {
                &&& self@.sample_start_index + self@.sample_len < self@.book.len()
                &&& start == self@.index[self@.sample_start_index as int]
                &&& cursor == self@.index[self@.sample_start_index + self@.cur_char]
                &&& end == self@.index[self@.sample_start_index + self@.sample_len]
            },
    {
        if !self.running {
            return None;
        }
        proof {
            law_exhausted(self.log@, self.book_text@);
        }
        Some(
            (
                self.line_index[self.sample_start_index],
                self.line_index[self.sample_start_index + self.cur_char],
                self.line_index[self.sample_start_index + self.sample_len],
            ),
        )
    }

    /// Whether the session goes on.
    pub fn running(&self) -> (running: bool)
        ensures
            running == self@.running,
    {
        self.running
    }

    /// The text of the book.
    pub fn book_text(&self) -> (text: &Vec<char>)
        ensures
            text@ == self@.book,
    {
        &self.book_text
    }

    /// The attempts so far.
    pub fn log(&self) -> (log: &PerformanceLog)
        ensures
            log@ == self@.log,
    {
        &self.log
    }

    /// The width the text is wrapped at.
    pub fn max_line_len(&self) -> (width: usize)
        ensures
            width == self@.max_line_len,
    {
        self.max_line_len
    }

    /// The display lines.
    pub fn book_lines(&self) -> (lines: &Vec<Vec<char>>)
        ensures
            rows(lines@) == self@.lines,
    {
        &self.book_lines
    }

    /// For each character offset of the book its line and column.
    pub fn line_index(&self) -> (index: &Vec<(usize, usize)>)
        ensures
            index@ == self@.index,
    {
        &self.line_index
    }

    /// Where the sample starts in the book.
    pub fn sample_start_index(&self) -> (start: usize)
        ensures
            start == self@.sample_start_index,
    {
        self.sample_start_index
    }

    /// The number of characters in the sample.
    pub fn sample_len(&self) -> (length: usize)
        ensures
            length == self@.sample_len,
    {
        self.sample_len
    }

    /// The number of characters of the sample typed so far.
    pub fn cur_char(&self) -> (typed: usize)
        ensures
            typed == self@.cur_char,
    {
        self.cur_char
    }

    /// When the attempt began, in nanoseconds since the Unix epoch.
    pub fn start_time(&self) -> (time: i64)
        ensures
            time == self@.start_time,
    {
        self.start_time
    }

    /// Whether the display follows the cursor.
    pub fn following_typing(&self) -> (following: bool)
        ensures
            following == self@.following_typing,
    {
        self.following_typing
    }

    /// The line the display is centred on.
    pub fn display_line(&self) -> (line: usize)
        ensures
            line == self@.display_line,
    {
        self.display_line
    }

    /// The mean length of the newest 10 attempts that count, for display.
    pub fn get_rolling_average(&self) -> (average: usize)
        ensures
            average == rolling_average(self@.log),
    {
        let recent = self.log.trailing_lengths(10, MIN_LENGTH);
        proof {
            crate::log::lemma_recent_lengths_qualify(self.log@, 10, MIN_LENGTH);
            crate::scheduler::lemma_sum_bounds(recent@);
            assert(recent@.len() * usize::MAX <= 10 * usize::MAX) by (nonlinear_arith)
                requires
                    recent@.len() <= 10,
            ;
        }
        let average: u128 = total(&recent) / 10;
        average as usize
    }
}

} // verus!
