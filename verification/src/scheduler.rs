//! Choosing the next sample: where it starts and how long it is.

use crate::log::{
    failure_run, furthest_end, lemma_failure_run_qualify, lemma_furthest_end_grows,
    lemma_recent_lengths_qualify, recent_lengths, Attempt, PerformanceLog,
};
use vstd::arithmetic::div_mod::{
    lemma_div_is_ordered, lemma_div_multiples_vanish, lemma_div_pos_is_pos,
    lemma_fundamental_div_mod, lemma_fundamental_div_mod_converse_div,
    lemma_hoist_over_denominator, lemma_mod_bound,
};
use vstd::prelude::*;

verus! {

/// The length that stands in for the recent peak while the log holds no
/// attempt that counts.
pub const STARTING_SAMPLE_SIZE: usize = 100;

/// Attempts no longer than this are noise and are left out of every statistic.
pub const MIN_LENGTH: usize = 5;

/// The sum of the lengths in `s`.
pub open spec fn sum(s: Seq<usize>) -> int
    decreases s.len(),
{
    if s.len() == 0 {
        0
    } else {
        sum(s.drop_last()) + s.last()
    }
}

/// The greatest length in `s`, 0 where `s` is empty.
pub open spec fn greatest(s: Seq<usize>) -> int
    decreases s.len(),
{
    if s.len() == 0 {
        0
    } else if s.last() > greatest(s.drop_last()) {
        s.last() as int
    } else {
        greatest(s.drop_last())
    }
}

/// The sum of the newest 50 lengths that count, divided by 50 however many
/// there are: with a short history the value stays low.
pub open spec fn avg_50(log: Seq<Attempt>) -> int {
    sum(recent_lengths(log, 50, MIN_LENGTH)) / 50
}

/// The greatest of the newest 10 lengths that count, or the starting size
/// where there is none.
pub open spec fn max_10(log: Seq<Attempt>) -> int {
    let recent = recent_lengths(log, 10, MIN_LENGTH);
    if recent.len() == 0 {
        STARTING_SAMPLE_SIZE as int
    } else {
        greatest(recent)
    }
}

/// The stretch length: a little beyond the better of the recent average and
/// the recent peak.
pub open spec fn best(log: Seq<Attempt>) -> int {
    (if avg_50(log) > max_10(log) {
        avg_50(log)
    } else {
        max_10(log)
    }) + 5
}

/// The number of failed attempts that count at the end of the log.
pub open spec fn wrong_num(log: Seq<Attempt>) -> int {
    failure_run(log, MIN_LENGTH).len() as int
}

/// The mean length of those failed attempts, 0 where there is none.
pub open spec fn wrong_avg(log: Seq<Attempt>) -> int {
    if wrong_num(log) == 0 {
        0
    } else {
        sum(failure_run(log, MIN_LENGTH)) / wrong_num(log)
    }
}

/// The mean of `best`, with weight 2, and `wrong_avg`, with the square of
/// `wrong_num` as its weight, rounded down.
pub open spec fn blend(best: int, wrong_avg: int, wrong_num: int) -> int {
    (best * 2 + wrong_avg * (wrong_num * wrong_num)) / (2 + wrong_num * wrong_num)
}

/// The length aimed at, before it is cut back to a word's end.
pub open spec fn target(log: Seq<Attempt>) -> int {
    blend(best(log), wrong_avg(log), wrong_num(log))
}

/// The end of the window of `target` characters that starts at `start`, cut
/// at the end of the book.
pub open spec fn window_end(book: Seq<char>, start: int, target: int) -> int {
    if start + target < book.len() {
        start + target
    } else {
        book.len() as int
    }
}

/// The offset of the last space in `book` from `lo` up to but not including
/// `hi`.
pub open spec fn last_space(book: Seq<char>, lo: int, hi: int) -> Option<int>
    decreases hi - lo,
{
    if hi <= lo {
        None
    } else if book[hi - 1] == ' ' {
        Some(hi - 1)
    } else {
        last_space(book, lo, hi - 1)
    }
}

/// The length that ends right after the last space of the window; `target`
/// itself where the window holds no space.
pub open spec fn snapped_length(book: Seq<char>, start: int, target: int) -> int {
    match last_space(book, start, window_end(book, start, target)) {
        Some(i) => i + 1 - start,
        None => target,
    }
}

/// Where the next sample starts: at the furthest end reached with success,
/// and no later than the book's last character.
pub open spec fn scheduled_start(log: Seq<Attempt>, book: Seq<char>) -> int {
    if furthest_end(log) < book.len() - 1 {
        furthest_end(log) as int
    } else {
        book.len() - 1
    }
}

/// The next sample, as its start and its length: the snapped length, cut so
/// that the sample ends before the book's last character. `None` where the
/// book is exhausted: nothing is left to type from the start.
pub open spec fn scheduled(log: Seq<Attempt>, book: Seq<char>) -> Option<(int, int)> {
    if book.len() == 0 {
        None
    } else {
        let start = scheduled_start(log, book);
        let room = book.len() - 1 - start;
        let snapped = snapped_length(book, start, target(log));
        let length = if snapped < room {
            snapped
        } else {
            room
        };
        if length <= 0 {
            None
        } else {
            Some((start, length))
        }
    }
}

/// A sum of lengths is at most as many times the greatest length a machine
/// holds.
pub proof fn lemma_sum_bounds(s: Seq<usize>)
    ensures
        0 <= sum(s) <= s.len() * 0xFFFF_FFFF_FFFF_FFFF,
        sum(s) <= s.len() * usize::MAX,
    decreases s.len(),
{
    if s.len() > 0 {
        lemma_sum_bounds(s.drop_last());
        assert((s.len() - 1) * usize::MAX + usize::MAX == s.len() * usize::MAX)
            by (nonlinear_arith);
    } else {
        assert(0 * usize::MAX == 0);
    }
}

proof fn lemma_sum_at_least(s: Seq<usize>)
    requires
        forall|i: int| 0 <= i < s.len() ==> s[i] > MIN_LENGTH,
    ensures
        sum(s) >= 6 * s.len(),
    decreases s.len(),
{
    if s.len() > 0 {
        lemma_sum_at_least(s.drop_last());
    }
}

proof fn lemma_greatest_bounds(s: Seq<usize>)
    ensures
        0 <= greatest(s) <= usize::MAX,
        forall|i: int| 0 <= i < s.len() ==> s[i] <= greatest(s),
    decreases s.len(),
{
    if s.len() > 0 {
        lemma_greatest_bounds(s.drop_last());
        assert forall|i: int| 0 <= i < s.len() implies s[i] <= greatest(s) by {
            if i < s.len() - 1 {
                assert(s.drop_last()[i] == s[i]);
            }
        }
    }
}

/// The blend is no less than a bound that both of its inputs reach.
proof fn lemma_blend_at_least(best: int, wrong_avg: int, wrong_num: int, low: int)
    requires
        low <= best,
        low <= wrong_avg,
        0 <= low,
    ensures
        low <= blend(best, wrong_avg, wrong_num),
{
    let x = wrong_num * wrong_num;
    assert(x >= 0) by (nonlinear_arith)
        requires
            x == wrong_num * wrong_num,
    ;
    let d = 2 + x;
    let n = best * 2 + wrong_avg * x;
    assert(low * d <= n) by (nonlinear_arith)
        requires
            d == 2 + x,
            n == best * 2 + wrong_avg * x,
            low <= best,
            low <= wrong_avg,
            x >= 0,
    ;
    lemma_div_is_ordered(low * d, n, d);
    assert(low * d == d * low) by (nonlinear_arith);
    lemma_div_multiples_vanish(low, d);
}

/// What the statistics of a log are at least and at most.
pub proof fn lemma_target_bounds(log: Seq<Attempt>)
    ensures
        0 <= avg_50(log) <= 0xFFFF_FFFF_FFFF_FFFF,
        MIN_LENGTH < max_10(log) <= usize::MAX,
        MIN_LENGTH + 5 < best(log),
        0 <= wrong_num(log) <= log.len(),
        wrong_num(log) == 0 ==> wrong_avg(log) == 0 && target(log) == best(log),
        wrong_num(log) > 0 ==> MIN_LENGTH < wrong_avg(log) <= 0xFFFF_FFFF_FFFF_FFFF,
        MIN_LENGTH < target(log),
{
    let recent50 = recent_lengths(log, 50, MIN_LENGTH);
    lemma_recent_lengths_qualify(log, 50, MIN_LENGTH);
    lemma_sum_bounds(recent50);
    let recent10 = recent_lengths(log, 10, MIN_LENGTH);
    lemma_recent_lengths_qualify(log, 10, MIN_LENGTH);
    lemma_greatest_bounds(recent10);
    if recent10.len() > 0 {
        assert(recent10[0] > MIN_LENGTH);
    }
    let run = failure_run(log, MIN_LENGTH);
    lemma_failure_run_qualify(log, MIN_LENGTH);
    lemma_sum_bounds(run);
    lemma_sum_at_least(run);
    let n = wrong_num(log);
    if n == 0 {
        assert(blend(best(log), 0, 0) == best(log)) by {
            assert(0int * 0int == 0);
            assert(0int * (0int * 0int) == 0);
        }
    } else {
        lemma_div_is_ordered(6 * n, sum(run), n);
        assert(6 * n == n * 6) by (nonlinear_arith);
        lemma_div_multiples_vanish(6, n);
        lemma_div_is_ordered(sum(run), n * 0xFFFF_FFFF_FFFF_FFFF, n);
        lemma_div_multiples_vanish(0xFFFF_FFFF_FFFF_FFFF, n);
        lemma_blend_at_least(best(log), wrong_avg(log), n, 6);
    }
}

/// The sum of the lengths in `v`.
pub fn total(v: &Vec<usize>) -> (t: u128)
    ensures
        t == sum(v@),
{
    let mut t: u128 = 0;
    let mut i: usize = 0;
    while i < v.len()
        invariant
            i <= v.len(),
            t == sum(v@.take(i as int)),
            t <= i * 0xFFFF_FFFF_FFFF_FFFF,
        decreases v.len() - i,
    {
        assert(v@.take(i + 1).drop_last() =~= v@.take(i as int));
        t = t + v[i] as u128;
        i += 1;
    }
    assert(v@.take(i as int) =~= v@);
    t
}

/// The greatest length in `v`, 0 where `v` is empty.
pub fn largest(v: &Vec<usize>) -> (m: usize)
    ensures
        m == greatest(v@),
{
    let mut m: usize = 0;
    let mut i: usize = 0;
    while i < v.len()
        invariant
            i <= v.len(),
            m == greatest(v@.take(i as int)),
        decreases v.len() - i,
    {
        assert(v@.take(i + 1).drop_last() =~= v@.take(i as int));
        if v[i] > m {
            m = v[i];
        }
        i += 1;
    }
    assert(v@.take(i as int) =~= v@);
    m
}

/// The weighted mean of `best` and `wrong_avg`, computed without leaving the
/// range of the machine's integers.
fn blend_lengths(best: u128, wrong_avg: u128, wrong_num: usize) -> (r: u128)
    requires
        best <= 0x1_0000_0000_0000_0010,
        wrong_avg <= 0xFFFF_FFFF_FFFF_FFFF,
    ensures
        r == blend(best as int, wrong_avg as int, wrong_num as int),
{
    let n: u128 = wrong_num as u128;
    assert(n * n <= 0xFFFF_FFFF_FFFF_FFFF * 0xFFFF_FFFF_FFFF_FFFF) by (nonlinear_arith)
        requires
            0 <= n <= 0xFFFF_FFFF_FFFF_FFFF,
    ;
    let x: u128 = n * n;
    let d: u128 = x + 2;
    proof {
        // best * 2 + wrong_avg * x == wrong_avg * d + 2 * (best - wrong_avg)
        lemma_hoist_over_denominator(2 * (best - wrong_avg), wrong_avg as int, d as nat);
        assert(2 * (best - wrong_avg) + wrong_avg * d == best * 2 + wrong_avg * x)
            by (nonlinear_arith)
            requires
                d == x + 2,
        ;
        assert(best * 2 + wrong_avg * x >= 0) by (nonlinear_arith)
            requires
                best >= 0,
                wrong_avg >= 0,
                x >= 0,
        ;
        lemma_div_pos_is_pos(best * 2 + wrong_avg * x, d as int);
    }
    if best >= wrong_avg {
        let r: u128 = 2 * (best - wrong_avg);
        proof {
            lemma_div_is_ordered(0, r as int, d as int);
            lemma_fundamental_div_mod(r as int, d as int);
            lemma_mod_bound(r as int, d as int);
            assert(r / d <= r) by (nonlinear_arith)
                requires
                    r == d * (r / d) + (r % d),
                    0 <= r % d,
                    d >= 2,
                    r >= 0,
            ;
        }
        wrong_avg + r / d
    } else {
        let t: u128 = 2 * (wrong_avg - best);
        let q: u128 = t / d;
        let rem: u128 = t % d;
        proof {
            lemma_fundamental_div_mod(t as int, d as int);
            lemma_mod_bound(t as int, d as int);
            if rem == 0 {
                assert(-(t as int) == (-(q as int)) * d + 0) by (nonlinear_arith)
                    requires
                        t == d * q + rem,
                        rem == 0,
                ;
                lemma_fundamental_div_mod_converse_div(-(t as int), d as int, -(q as int), 0);
            } else {
                assert(-(t as int) == (-(q as int) - 1) * d + (d - rem)) by (nonlinear_arith)
                    requires
                        t == d * q + rem,
                ;
                lemma_fundamental_div_mod_converse_div(
                    -(t as int),
                    d as int,
                    -(q as int) - 1,
                    d - rem,
                );
            }
        }
        if rem == 0 {
            wrong_avg - q
        } else {
            wrong_avg - q - 1
        }
    }
}

/// The length aimed at for the next sample, before it is cut back to a
/// word's end.
pub fn target_length(log: &PerformanceLog) -> (len: u128)
    ensures
        len == target(log@),
        MIN_LENGTH < len,
{
    proof {
        lemma_target_bounds(log@);
    }
    let recent50 = log.trailing_lengths(50, MIN_LENGTH);
    let avg: u128 = total(&recent50) / 50;
    let recent10 = log.trailing_lengths(10, MIN_LENGTH);
    let peak: u128 = if recent10.len() == 0 {
        STARTING_SAMPLE_SIZE as u128
    } else {
        largest(&recent10) as u128
    };
    let best: u128 = (if avg > peak {
        avg
    } else {
        peak
    }) + 5;
    let run = log.trailing_failure_run(MIN_LENGTH);
    let wrong_num: usize = run.len();
    let wrong_avg: u128 = if wrong_num == 0 {
        0
    } else {
        total(&run) / (wrong_num as u128)
    };
    blend_lengths(best, wrong_avg, wrong_num)
}

/// The next sample to type, as its start and its length, or `None` where the
/// book is exhausted.
pub fn next_sample(log: &PerformanceLog, book_text: &Vec<char>) -> (sample: Option<(usize, usize)>)
    ensures
        match sample {
            Some((start, length)) => scheduled(log@, book_text@) == Some(
                (start as int, length as int),
            ),
            None => scheduled(log@, book_text@) is None,
        },
        sample is None <==> book_text.len() == 0 || furthest_end(log@) >= book_text.len() - 1,
        sample matches Some((start, length)) ==> length >= 1 && start + length <= book_text.len()
            - 1,
{
    let book_len: usize = book_text.len();
    if book_len == 0 {
        return None;
    }
    let furthest: usize = log.furthest_successful_end();
    let start: usize = if furthest < book_len - 1 {
        furthest
    } else {
        book_len - 1
    };
    let room: usize = book_len - 1 - start;
    if room == 0 {
        return None;
    }
    let aim: u128 = target_length(log);
    let remaining: usize = book_len - start;
    let window: usize = if aim < remaining as u128 {
        aim as usize
    } else {
        remaining
    };
    let ghost end: int = start + window;
    let mut i: usize = start + window;
    while i > start && book_text[i - 1] != ' '
        invariant
            start <= i <= end <= book_text.len(),
            last_space(book_text@, start as int, end) == last_space(
                book_text@,
                start as int,
                i as int,
            ),
        decreases i,
    {
        i -= 1;
    }
    let snapped: u128 = if i > start {
        (i - start) as u128
    } else {
        aim
    };
    let length: usize = if snapped < room as u128 {
        snapped as usize
    } else {
        room
    };
    Some((start, length))
}

/// Progress never regresses: as attempts are added to a log, the start of
/// the scheduled sample does not move back, and a book once exhausted stays
/// exhausted.
pub proof fn law_start_never_decreases(log: Seq<Attempt>, more: Seq<Attempt>, book: Seq<char>)
    ensures
        scheduled_start(log, book) <= scheduled_start(log + more, book),
        match (scheduled(log, book), scheduled(log + more, book)) {
            (Some(before), Some(after)) => before.0 <= after.0,
            (None, after) => after is None,
            (Some(_), None) => true,
        },
{
    lemma_furthest_end_grows(log, more);
    law_exhausted(log, book);
    law_exhausted(log + more, book);
}

/// The book is exhausted exactly when it is empty or the furthest end reached
/// with success is its last character or beyond. Otherwise the sample starts
/// at that end, holds at least one character and ends before the book's last
/// character.
pub proof fn law_exhausted(log: Seq<Attempt>, book: Seq<char>)
    ensures
        scheduled(log, book) is None <==> book.len() == 0 || furthest_end(log) >= book.len() - 1,
        scheduled(log, book) matches Some((start, length)) ==> start == furthest_end(log)
            && length >= 1 && start + length <= book.len() - 1,
{
    lemma_target_bounds(log);
    if book.len() > 0 {
        let start = scheduled_start(log, book);
        lemma_last_space_in_range(book, start, window_end(book, start, target(log)));
    }
}

/// With no attempt on record the sample starts at the book's first character,
/// and its length is the starting size plus 5, cut back to a word's end and
/// to the room the book leaves.
pub proof fn law_empty_log(book: Seq<char>)
    ensures
        target(Seq::<Attempt>::empty()) == STARTING_SAMPLE_SIZE + 5,
        book.len() > 1 ==> scheduled(Seq::<Attempt>::empty(), book) == Some(
            (
                0int,
                if snapped_length(book, 0, STARTING_SAMPLE_SIZE + 5) < book.len() - 1 {
                    snapped_length(book, 0, STARTING_SAMPLE_SIZE + 5)
                } else {
                    book.len() - 1
                },
            ),
        ),
        book.len() <= 1 ==> scheduled(Seq::<Attempt>::empty(), book) is None,
{
    let log = Seq::<Attempt>::empty();
    lemma_target_bounds(log);
    assert(sum(Seq::<usize>::empty()) == 0);
    law_exhausted(log, book);
}

/// After a successful attempt no failure weighs on the next sample: its
/// target length is the stretch length itself.
pub proof fn law_after_success(log: Seq<Attempt>)
    requires
        log.len() > 0,
        log.last().succeeded,
    ensures
        wrong_num(log) == 0,
        wrong_avg(log) == 0,
        target(log) == best(log),
{
    lemma_target_bounds(log);
}

/// A sample that the end of the book does not cut short ends right after a
/// space, or it holds no space at all and has the target length.
pub proof fn law_word_boundary(log: Seq<Attempt>, book: Seq<char>)
    requires
        book.len() > 0,
        snapped_length(book, scheduled_start(log, book), target(log)) <= book.len() - 1
            - scheduled_start(log, book),
    ensures
        scheduled(log, book) matches Some((start, length)) ==> {
            ||| book[start + length - 1] == ' '
            ||| length == target(log) && forall|i: int|
                start <= i < start + length ==> book[i] != ' '
        },
{
    lemma_target_bounds(log);
    let start = scheduled_start(log, book);
    lemma_last_space_in_range(book, start, window_end(book, start, target(log)));
}

/// What `last_space` finds is a space in the range, and where it finds
/// nothing the range holds no space.
pub proof fn lemma_last_space_in_range(book: Seq<char>, lo: int, hi: int)
    ensures
        match last_space(book, lo, hi) {
            Some(i) => lo <= i < hi && book[i] == ' ' && forall|j: int|
                i < j < hi ==> book[j] != ' ',
            None => forall|j: int| lo <= j < hi ==> book[j] != ' ',
        },
    decreases hi - lo,
{
    if hi > lo && book[hi - 1] != ' ' {
        lemma_last_space_in_range(book, lo, hi - 1);
    }
}

} // verus!
