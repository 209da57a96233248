use booktyping::app::{App, AppError, Step};
use booktyping::log::{Attempt, KeyPress, PerformanceLog};

fn chars(s: &str) -> Vec<char> {
    s.chars().collect()
}

fn strings(lines: &Vec<Vec<char>>) -> Vec<String> {
    lines.iter().map(|l| l.iter().collect::<String>()).collect()
}

const FOX: &str = "the quick brown fox jumps over the lazy dog ";

fn fox_app() -> App {
    App::new(chars(FOX), PerformanceLog::new(), 100, 1000)
}

#[test]
fn new_schedules_the_first_sample() {
    let app = fox_app();
    assert!(app.running());
    assert_eq!(app.sample_start_index(), 0);
    assert_eq!(app.sample_len(), 43);
    assert_eq!(app.cur_char(), 0);
    assert_eq!(app.start_time(), 1000);
    assert!(app.following_typing());
    assert_eq!(app.display_line(), 0);
    assert_eq!(app.max_line_len(), 100);
    assert_eq!(app.book_text().clone(), chars(FOX));
    assert_eq!(strings(app.book_lines()), vec![FOX.to_string()]);
    assert_eq!(app.line_index().len(), 44);
    assert_eq!(app.log().len(), 0);
}

#[test]
fn new_resumes_where_the_log_left_off() {
    let book = "abcd ".repeat(16);
    let log = PerformanceLog::from_records(vec![Attempt {
        succeeded: true,
        start_index: 0,
        end_index: 40,
        started: 1,
        completed: 2,
    }]);
    let app = App::new(chars(&book), log, 12, 7);
    assert!(app.running());
    assert_eq!(app.sample_start_index(), 40);
    assert_eq!(app.sample_len(), 39);
    // Lines hold two words of five characters each: offset 40 is on line 4.
    assert_eq!(app.display_line(), 4);
    assert_eq!(app.sample_bounds(), Some(((4, 0), (4, 0), (7, 9))));
}

#[test]
fn new_on_an_empty_book_does_not_run() {
    let app = App::new(Vec::new(), PerformanceLog::new(), 10, 5);
    assert!(!app.running());
    assert_eq!(app.sample_len(), 0);
    assert_eq!(app.sample_bounds(), None);
}

#[test]
fn quit_stops_the_session() {
    let mut app = fox_app();
    app.quit();
    assert!(!app.running());
    assert_eq!(app.apply_keystroke('t', 2000), None);
    assert_eq!(app.handle_char('t'), Err(AppError::Finished));
    assert_eq!(app.cur_char(), 0);
}

#[test]
fn right_character_moves_the_cursor() {
    let mut app = fox_app();
    let step = app.apply_keystroke('t', 2000);
    assert_eq!(
        step,
        Some(Step { keypress: KeyPress { correct: true, key: 't', time: 2000 }, attempt: None })
    );
    assert_eq!(app.cur_char(), 1);
    assert_eq!(app.start_time(), 1000);
    assert_eq!(app.log().len(), 0);
    assert_eq!(app.sample_bounds(), Some(((0, 0), (0, 1), (0, 43))));
}

#[test]
fn wrong_character_ends_the_attempt_as_failed() {
    let mut app = fox_app();
    app.apply_keystroke('t', 2000);
    app.apply_keystroke('h', 2500);
    let step = app.apply_keystroke('x', 3000);
    let attempt =
        Attempt { succeeded: false, start_index: 0, end_index: 2, started: 1000, completed: 3000 };
    assert_eq!(
        step,
        Some(Step {
            keypress: KeyPress { correct: false, key: 'x', time: 3000 },
            attempt: Some(attempt),
        })
    );
    assert_eq!(app.log().records().clone(), vec![attempt]);
    assert_eq!(app.cur_char(), 0);
    assert_eq!(app.start_time(), 3000);
    assert!(app.running());
    assert_eq!((app.sample_start_index(), app.sample_len()), (0, 43));
}

#[test]
fn typing_the_whole_sample_succeeds_and_schedules_the_next() {
    let book = "ab ".repeat(100);
    let mut app = App::new(chars(&book), PerformanceLog::new(), 40, 10);
    assert_eq!((app.sample_start_index(), app.sample_len()), (0, 105));
    let text = chars(&book);
    let mut last = None;
    for i in 0..105 {
        last = app.apply_keystroke(text[i], 20 + i as i64);
        if i < 104 {
            assert_eq!(last.unwrap().attempt, None);
            assert_eq!(app.cur_char(), i + 1);
        }
    }
    let attempt =
        Attempt { succeeded: true, start_index: 0, end_index: 105, started: 10, completed: 124 };
    assert_eq!(last.unwrap().attempt, Some(attempt));
    assert_eq!(app.log().records().clone(), vec![attempt]);
    assert_eq!((app.sample_start_index(), app.sample_len()), (105, 108));
    assert_eq!(app.cur_char(), 0);
    assert_eq!(app.start_time(), 124);
    assert!(app.running());
}

#[test]
fn finishing_the_book_stops_the_session() {
    let mut app = fox_app();
    let text = chars(FOX);
    for i in 0..43 {
        assert!(app.running());
        let step = app.apply_keystroke(text[i], 2000).unwrap();
        assert!(step.keypress.correct);
    }
    assert!(!app.running());
    assert_eq!(app.log().len(), 1);
    assert!(app.log().records()[0].succeeded);
    assert_eq!(app.log().records()[0].end_index, 43);
    assert_eq!(app.apply_keystroke(' ', 3000), None);
}

#[test]
fn handle_char_stamps_the_keystroke_with_the_clock() {
    let mut app = fox_app();
    let step = app.handle_char('t').unwrap();
    assert!(step.keypress.correct);
    assert_eq!(step.keypress.key, 't');
    assert!(step.keypress.time > 1_600_000_000_000_000_000);
    assert_eq!(step.attempt, None);
    assert_eq!(app.cur_char(), 1);
    let step = app.handle_char('z').unwrap();
    assert!(!step.keypress.correct);
    let attempt = step.attempt.unwrap();
    assert_eq!(attempt.completed, step.keypress.time);
    assert_eq!(attempt.started, 1000);
    assert_eq!((attempt.start_index, attempt.end_index), (0, 1));
    assert_eq!(app.start_time(), step.keypress.time);
}

#[test]
fn typing_follows_the_cursor_again() {
    let mut app = fox_app();
    app.scroll_down(3);
    assert!(!app.following_typing());
    app.apply_keystroke('t', 2000);
    assert!(app.following_typing());
    assert_eq!(app.display_line(), 3);
}

#[test]
fn resize_wraps_anew_and_keeps_the_sample() {
    let mut app = fox_app();
    app.apply_keystroke('t', 2000);
    app.resize(10);
    assert_eq!(app.max_line_len(), 10);
    assert_eq!(
        strings(app.book_lines()),
        vec!["the ", "quick ", "brown ", "fox ", "jumps ", "over the ", "lazy dog "]
    );
    assert_eq!(app.line_index()[4], (1, 0));
    assert_eq!((app.sample_start_index(), app.sample_len(), app.cur_char()), (0, 43, 1));
    assert_eq!(app.sample_bounds(), Some(((0, 0), (0, 1), (6, 8))));
}

#[test]
fn scrolling_stops_at_the_first_line() {
    let mut app = fox_app();
    app.scroll_down(10);
    app.scroll_down(1);
    assert_eq!(app.display_line(), 11);
    app.scroll_up(1);
    assert_eq!(app.display_line(), 10);
    app.scroll_up(25);
    assert_eq!(app.display_line(), 0);
    app.scroll_down(usize::MAX);
    app.scroll_down(usize::MAX);
    assert_eq!(app.display_line(), usize::MAX);
    app.follow();
    assert!(app.following_typing());
}

#[test]
fn rolling_average_divides_the_newest_ten_by_ten() {
    let record = |len: usize| Attempt {
        succeeded: true,
        start_index: 0,
        end_index: len,
        started: 0,
        completed: 0,
    };
    let app = App::new(chars(FOX), PerformanceLog::new(), 100, 0);
    assert_eq!(app.get_rolling_average(), 0);
    let log = PerformanceLog::from_records(vec![record(30), record(4), record(25)]);
    let app = App::new(chars(FOX), log, 100, 0);
    assert_eq!(app.get_rolling_average(), 5);
    let mut records = vec![record(1000)];
    records.extend(vec![record(20); 10]);
    let app = App::new(chars(FOX), PerformanceLog::from_records(records), 100, 0);
    assert_eq!(app.get_rolling_average(), 20);
}

#[test]
fn start_stamps_the_first_attempt_with_the_clock() {
    let app = App::start(chars(FOX), PerformanceLog::new(), 100).unwrap();
    assert!(app.running());
    assert!(app.start_time() > 1_600_000_000_000_000_000);
    assert_eq!((app.sample_start_index(), app.sample_len(), app.cur_char()), (0, 43, 0));
    assert_eq!(strings(app.book_lines()), vec![FOX.to_string()]);
}
