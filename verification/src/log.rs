//! The record of practice attempts and the statistics read from it.

use vstd::prelude::*;

verus! {

/// One practice attempt: the span of the book that was typed, whether it was
/// typed to its end without a mistake, and when it began and ended
/// (nanoseconds since the Unix epoch).
#[derive(Clone, Copy, Debug, PartialEq, Eq, Structural)]
pub struct Attempt {
    pub succeeded: bool,
    pub start_index: usize,
    pub end_index: usize,
    pub started: i64,
    pub completed: i64,
}

/// One keystroke: the key, whether it was the expected character, and when it
/// was typed (nanoseconds since the Unix epoch).
#[derive(Clone, Copy, Debug, PartialEq, Eq, Structural)]
pub struct KeyPress {
    pub correct: bool,
    pub key: char,
    pub time: i64,
}

/// The number of characters an attempt covered. A record whose end lies before
/// its start covers nothing.
pub open spec fn attempted_length(a: Attempt) -> usize {
    if a.end_index >= a.start_index {
        (a.end_index - a.start_index) as usize
    } else {
        0
    }
}

/// The greatest `end_index` among the successful attempts, 0 where there is
/// none.
pub open spec fn furthest_end(log: Seq<Attempt>) -> usize
    decreases log.len(),
{
    if log.len() == 0 {
        0
    } else {
        let rest: usize = furthest_end(log.drop_last());
        let a = log.last();
        if a.succeeded && a.end_index > rest {
            a.end_index
        } else {
            rest
        }
    }
}

/// The lengths of the newest `n` attempts longer than `min_length`, newest
/// first.
pub open spec fn recent_lengths(log: Seq<Attempt>, n: nat, min_length: usize) -> Seq<usize>
    decreases log.len(),
{
    if log.len() == 0 || n == 0 {
        Seq::empty()
    } else if attempted_length(log.last()) > min_length {
        seq![attempted_length(log.last())] + recent_lengths(
            log.drop_last(),
            (n - 1) as nat,
            min_length,
        )
    } else {
        recent_lengths(log.drop_last(), n, min_length)
    }
}

/// The lengths, newest first, of the failed attempts that end the log, up to
/// but not including the newest successful one; attempts no longer than
/// `min_length` are left out.
pub open spec fn failure_run(log: Seq<Attempt>, min_length: usize) -> Seq<usize>
    decreases log.len(),
{
    if log.len() == 0 || log.last().succeeded {
        Seq::empty()
    } else if attempted_length(log.last()) > min_length {
        seq![attempted_length(log.last())] + failure_run(log.drop_last(), min_length)
    } else {
        failure_run(log.drop_last(), min_length)
    }
}

/// `furthest_end` is an upper bound of the successful ends.
pub proof fn lemma_furthest_end_bounds(log: Seq<Attempt>, i: int)
    requires
        0 <= i < log.len(),
        log[i].succeeded,
    ensures
        log[i].end_index <= furthest_end(log),
    decreases log.len(),
{
    if i < log.len() - 1 {
        lemma_furthest_end_bounds(log.drop_last(), i);
    }
}

/// `furthest_end` is 0 or the end of some successful attempt.
pub proof fn lemma_furthest_end_attained(log: Seq<Attempt>)
    ensures
        furthest_end(log) == 0 || exists|i: int|
            0 <= i < log.len() && log[i].succeeded && #[trigger] log[i].end_index == furthest_end(
                log,
            ),
    decreases log.len(),
{
    if log.len() > 0 {
        let rest = log.drop_last();
        lemma_furthest_end_attained(rest);
        if furthest_end(log) != 0 {
            if furthest_end(log) == furthest_end(rest) {
                let i = choose|i: int|
                    0 <= i < rest.len() && rest[i].succeeded && #[trigger] rest[i].end_index
                        == furthest_end(rest);
                assert(log[i].end_index == furthest_end(log));
            } else {
                assert(log[log.len() - 1].end_index == furthest_end(log));
            }
        }
    }
}

/// Appending attempts never lowers `furthest_end`.
pub proof fn lemma_furthest_end_grows(log: Seq<Attempt>, more: Seq<Attempt>)
    ensures
        furthest_end(log) <= furthest_end(log + more),
    decreases more.len(),
{
    if more.len() == 0 {
        assert(log + more =~= log);
    } else {
        lemma_furthest_end_grows(log, more.drop_last());
        assert((log + more).drop_last() =~= log + more.drop_last());
    }
}

/// Every length in `recent_lengths` exceeds `min_length`, and there are at
/// most `n` of them.
pub proof fn lemma_recent_lengths_qualify(log: Seq<Attempt>, n: nat, min_length: usize)
    ensures
        recent_lengths(log, n, min_length).len() <= n,
        recent_lengths(log, n, min_length).len() <= log.len(),
        forall|i: int|
            0 <= i < recent_lengths(log, n, min_length).len() ==> #[trigger] recent_lengths(
                log,
                n,
                min_length,
            )[i] > min_length,
    decreases log.len(),
{
    if log.len() == 0 || n == 0 {
    } else if attempted_length(log.last()) > min_length {
        lemma_recent_lengths_qualify(log.drop_last(), (n - 1) as nat, min_length);
    } else {
        lemma_recent_lengths_qualify(log.drop_last(), n, min_length);
    }
}

/// Every length in `failure_run` exceeds `min_length`, and there are no more
/// of them than attempts.
pub proof fn lemma_failure_run_qualify(log: Seq<Attempt>, min_length: usize)
    ensures
        failure_run(log, min_length).len() <= log.len(),
        forall|i: int|
            0 <= i < failure_run(log, min_length).len() ==> #[trigger] failure_run(
                log,
                min_length,
            )[i] > min_length,
    decreases log.len(),
{
    if log.len() == 0 || log.last().succeeded {
    } else {
        lemma_failure_run_qualify(log.drop_last(), min_length);
    }
}

impl Attempt {
    /// The number of characters the attempt covered.
    pub fn length(&self) -> (n: usize)
        ensures
            n == attempted_length(*self),
    {
        if self.end_index >= self.start_index {
            self.end_index - self.start_index
        } else {
            0
        }
    }
}

/// The attempts made so far, oldest first. Attempts are only ever added at the
/// end.
#[derive(Debug)]
pub struct PerformanceLog {
    records: Vec<Attempt>,
}

impl View for PerformanceLog {
    type V = Seq<Attempt>;

    closed spec fn view(&self) -> Seq<Attempt> {
        self.records@
    }
}

impl PerformanceLog {
    /// A log without attempts.
    pub fn new() -> (log: Self)
        ensures
            log@ == Seq::<Attempt>::empty(),
    {
        PerformanceLog { records: Vec::new() }
    }

    /// A log that holds `records`, oldest first.
    pub fn from_records(records: Vec<Attempt>) -> (log: Self)
        ensures
            log@ == records@,
    {
        PerformanceLog { records }
    }

    /// Adds `record` as the newest attempt.
    pub fn append(&mut self, record: Attempt)
        ensures
            final(self)@ == old(self)@.push(record),
    {
        self.records.push(record);
    }

    /// The number of attempts.
    pub fn len(&self) -> (n: usize)
        ensures
            n == self@.len(),
    {
        self.records.len()
    }

    /// The attempts, oldest first.
    pub fn records(&self) -> (records: &Vec<Attempt>)
        ensures
            records@ == self@,
    {
        &self.records
    }

    /// The greatest `end_index` among the successful attempts, 0 where there
    /// is none.
    pub fn furthest_successful_end(&self) -> (end: usize)
        ensures
            end == furthest_end(self@),
            forall|i: int|
                0 <= i < self@.len() && self@[i].succeeded ==> (#[trigger] self@[i]).end_index
                    <= end,
            end == 0 || exists|i: int|
                0 <= i < self@.len() && self@[i].succeeded && (#[trigger] self@[i]).end_index
                    == end,
    {
        let mut end: usize = 0;
        let mut i: usize = 0;
        while i < self.records.len()
            invariant
                i <= self.records.len(),
                end == furthest_end(self.records@.take(i as int)),
            decreases self.records.len() - i,
        {
            let a = self.records[i];
            assert(self.records@.take(i + 1).drop_last() =~= self.records@.take(i as int));
            if a.succeeded && a.end_index > end {
                end = a.end_index;
            }
            i += 1;
        }
        proof {
            assert(self.records@.take(i as int) =~= self.records@);
            assert forall|j: int| 0 <= j < self@.len() && self@[j].succeeded implies (
            #[trigger] self@[j]).end_index <= end by {
                lemma_furthest_end_bounds(self@, j);
            }
            lemma_furthest_end_attained(self@);
        }
        end
    }

    /// The lengths of the newest `n` attempts longer than `min_length`,
    /// newest first.
    pub fn trailing_lengths(&self, n: usize, min_length: usize) -> (out: Vec<usize>)
        ensures
            out@ == recent_lengths(self@, n as nat, min_length),
    {
        let mut out: Vec<usize> = Vec::new();
        let mut i: usize = self.records.len();
        assert(self.records@.take(i as int) =~= self.records@);
        while i > 0 && out.len() < n
            invariant
                i <= self.records.len(),
                out.len() <= n,
                recent_lengths(self.records@, n as nat, min_length) == out@ + recent_lengths(
                    self.records@.take(i as int),
                    (n - out.len()) as nat,
                    min_length,
                ),
            decreases i,
        {
            let len: usize = self.records[i - 1].length();
            assert(self.records@.take(i as int).drop_last() =~= self.records@.take(i - 1));
            let ghost rest = recent_lengths(
                self.records@.take(i - 1),
                (n - out.len() - 1) as nat,
                min_length,
            );
            if len > min_length {
                assert(out@.push(len) + rest =~= out@ + (seq![len] + rest));
                out.push(len);
            }
            i -= 1;
        }
        assert(out@ + Seq::<usize>::empty() =~= out@);
        out
    }

    /// The lengths, newest first, of the failed attempts that end the log;
    /// attempts no longer than `min_length` are left out.
    pub fn trailing_failure_run(&self, min_length: usize) -> (out: Vec<usize>)
        ensures
            out@ == failure_run(self@, min_length),
    {
        let mut out: Vec<usize> = Vec::new();
        let mut i: usize = self.records.len();
        assert(self.records@.take(i as int) =~= self.records@);
        while i > 0 && !self.records[i - 1].succeeded
            invariant
                i <= self.records.len(),
                failure_run(self.records@, min_length) == out@ + failure_run(
                    self.records@.take(i as int),
                    min_length,
                ),
            decreases i,
        {
            let len: usize = self.records[i - 1].length();
            assert(self.records@.take(i as int).drop_last() =~= self.records@.take(i - 1));
            let ghost rest = failure_run(self.records@.take(i - 1), min_length);
            if len > min_length {
                assert(out@.push(len) + rest =~= out@ + (seq![len] + rest));
                out.push(len);
            }
            i -= 1;
        }
        assert(out@ + Seq::<usize>::empty() =~= out@);
        out
    }
}

} // verus!
