use booktyping::log::{Attempt, PerformanceLog};
use booktyping::scheduler::{
    largest, next_sample, target_length, total, MIN_LENGTH, STARTING_SAMPLE_SIZE,
};

fn chars(s: &str) -> Vec<char> {
    s.chars().collect()
}

fn attempt(succeeded: bool, start_index: usize, end_index: usize) -> Attempt {
    Attempt { succeeded, start_index, end_index, started: 0, completed: 1 }
}

fn log_of(records: Vec<Attempt>) -> PerformanceLog {
    PerformanceLog::from_records(records)
}

const FOX: &str = "the quick brown fox jumps over the lazy dog ";

#[test]
fn constants() {
    assert_eq!(STARTING_SAMPLE_SIZE, 100);
    assert_eq!(MIN_LENGTH, 5);
}

#[test]
fn total_and_largest() {
    assert_eq!(total(&vec![]), 0);
    assert_eq!(total(&vec![3, 4, 5]), 12);
    assert_eq!(total(&vec![usize::MAX, usize::MAX]), 2 * (usize::MAX as u128));
    assert_eq!(largest(&vec![]), 0);
    assert_eq!(largest(&vec![3, 9, 5]), 9);
}

#[test]
fn empty_log_starts_at_zero_with_the_starting_size_plus_five() {
    let log = PerformanceLog::new();
    assert_eq!(target_length(&log), 105);
    let book = chars(&"ab ".repeat(100));
    assert_eq!(next_sample(&log, &book), Some((0, 105)));
    let unbroken = chars(&"a".repeat(300));
    assert_eq!(next_sample(&log, &unbroken), Some((0, 105)));
}

#[test]
fn empty_log_on_the_fox_sentence() {
    let book = chars(FOX);
    assert_eq!(book.len(), 44);
    let log = PerformanceLog::new();
    assert_eq!(target_length(&log), 105);
    // The last space is the book's last character; the sample has to end
    // before that character, so it is cut to 43.
    assert_eq!(next_sample(&log, &book), Some((0, 43)));
}

#[test]
fn one_success_to_forty_on_an_eighty_character_book() {
    let book = chars(&"abcd ".repeat(16));
    assert_eq!(book.len(), 80);
    let log = log_of(vec![attempt(true, 0, 40)]);
    assert_eq!(log.furthest_successful_end(), 40);
    assert_eq!(next_sample(&log, &book), Some((40, 39)));
}

#[test]
fn three_failures_pull_the_target_towards_their_mean() {
    let log = log_of(vec![attempt(false, 0, 10), attempt(false, 0, 15), attempt(false, 0, 20)]);
    assert_eq!(log.trailing_failure_run(MIN_LENGTH), vec![20, 15, 10]);
    // The failures are history too: the recent peak is 20, not the starting
    // size, so the stretch length is 25 and the target (50 + 135) / 11.
    assert_eq!(target_length(&log), 16);
    assert_eq!(next_sample(&log, &chars(&"a".repeat(200))), Some((0, 16)));
    assert_eq!(next_sample(&log, &chars(&"ab ".repeat(100))), Some((0, 15)));
}

#[test]
fn three_failures_after_a_peak_of_one_hundred() {
    let log = log_of(vec![
        attempt(true, 0, 100),
        attempt(false, 100, 110),
        attempt(false, 100, 115),
        attempt(false, 100, 120),
    ]);
    // best = 105, wrong_avg = 15, wrong_num = 3: (210 + 135) / 11 = 31.
    assert_eq!(target_length(&log), 31);
    assert_eq!(next_sample(&log, &chars(&"a".repeat(400))), Some((100, 31)));
}

#[test]
fn one_failure_has_a_modest_effect() {
    let log = log_of(vec![attempt(true, 0, 105), attempt(false, 105, 120)]);
    // best = 110, wrong_avg = 15, wrong_num = 1: (220 + 15) / 3 = 78.
    assert_eq!(target_length(&log), 78);
    let two = log_of(vec![
        attempt(true, 0, 105),
        attempt(false, 105, 120),
        attempt(false, 105, 112),
    ]);
    // wrong_avg = 11, wrong_num = 2: (220 + 44) / 6 = 44.
    assert_eq!(target_length(&two), 44);
}

#[test]
fn short_failures_do_not_count() {
    let log = log_of(vec![
        attempt(true, 0, 105),
        attempt(false, 105, 120),
        attempt(false, 105, 112),
        attempt(false, 105, 108),
    ]);
    assert_eq!(target_length(&log), 44);
    assert_eq!(next_sample(&log, &chars(&"ab ".repeat(100))), Some((105, 42)));
}

#[test]
fn after_a_success_the_target_is_the_stretch_length() {
    let log = log_of(vec![attempt(false, 0, 30), attempt(false, 0, 40), attempt(true, 0, 105)]);
    assert!(log.trailing_failure_run(MIN_LENGTH).is_empty());
    // max_10 = 105, avg_50 = 175 / 50 = 3, best = 110.
    assert_eq!(target_length(&log), 110);
    assert_eq!(next_sample(&log, &chars(&"ab ".repeat(100))), Some((105, 108)));
}

#[test]
fn average_divides_by_fifty_however_few_attempts_there_are() {
    let mut records = vec![attempt(true, 0, 200); 20];
    records.extend(vec![attempt(true, 0, 6); 10]);
    // 20 * 200 + 10 * 6 = 4060; 4060 / 50 = 81 although the mean is 135.
    assert_eq!(target_length(&log_of(records)), 86);
}

#[test]
fn average_looks_at_the_newest_fifty_only() {
    let mut records = vec![attempt(true, 0, 200); 45];
    records.extend(vec![attempt(true, 0, 6); 10]);
    // 40 * 200 + 10 * 6 = 8060; 8060 / 50 = 161; the peak of the last 10 is 6.
    assert_eq!(target_length(&log_of(records)), 166);
}

#[test]
fn peak_looks_at_the_newest_ten_only() {
    let mut records = vec![attempt(true, 0, 300)];
    records.extend(vec![attempt(true, 0, 20); 10]);
    // avg_50 = 500 / 50 = 10, max_10 = 20.
    assert_eq!(target_length(&log_of(records)), 25);
}

#[test]
fn start_never_moves_back_as_the_log_grows() {
    let book = chars(&"ab ".repeat(100));
    let mut log = PerformanceLog::new();
    let mut last = 0;
    let steps = vec![
        attempt(true, 0, 105),
        attempt(false, 105, 150),
        attempt(true, 0, 30),
        attempt(true, 105, 120),
        attempt(false, 120, 290),
        attempt(true, 120, 200),
    ];
    for record in steps {
        log.append(record);
        let (start, _) = next_sample(&log, &book).unwrap();
        assert!(start >= last);
        last = start;
    }
    assert_eq!(last, 200);
}

#[test]
fn sample_ends_after_a_space_unless_cut_or_unbroken() {
    let book = chars(&"lorem ipsum dolor sit amet ".repeat(20));
    let log = log_of(vec![attempt(true, 0, 33)]);
    let (start, length) = next_sample(&log, &book).unwrap();
    assert_eq!(start, 33);
    assert_eq!(book[start + length - 1], ' ');
    assert!(length <= 38);
}

#[test]
fn unbroken_window_falls_back_to_the_target() {
    let book = chars(&"x".repeat(500));
    let log = log_of(vec![attempt(true, 0, 50)]);
    // best = max(1, 50) + 5.
    assert_eq!(next_sample(&log, &book), Some((50, 55)));
}

#[test]
fn sample_never_reaches_the_last_character() {
    let book = chars(&"x".repeat(60));
    let log = log_of(vec![attempt(true, 0, 50)]);
    assert_eq!(next_sample(&log, &book), Some((50, 9)));
}

#[test]
fn book_is_exhausted_when_progress_reaches_the_last_character() {
    let book = chars(FOX);
    assert_eq!(next_sample(&log_of(vec![attempt(true, 0, 43)]), &book), None);
    assert_eq!(next_sample(&log_of(vec![attempt(true, 0, 44)]), &book), None);
    assert_eq!(next_sample(&log_of(vec![attempt(true, 0, 900)]), &book), None);
    assert_eq!(next_sample(&log_of(vec![attempt(true, 0, 42)]), &book), Some((42, 1)));
}

#[test]
fn empty_and_one_character_books_are_exhausted() {
    let log = PerformanceLog::new();
    assert_eq!(next_sample(&log, &chars("")), None);
    assert_eq!(next_sample(&log, &chars("a")), None);
    assert_eq!(next_sample(&log, &chars("ab")), Some((0, 1)));
}

#[test]
fn huge_lengths_do_not_overflow() {
    let log = log_of(vec![attempt(true, 0, usize::MAX), attempt(false, 0, usize::MAX)]);
    let max = usize::MAX as u128;
    // best = max + 5, wrong_avg = max, wrong_num = 1: (2 * best + max) / 3.
    assert_eq!(target_length(&log), (2 * (max + 5) + max) / 3);
    assert_eq!(next_sample(&log, &chars(FOX)), None);
}
