use booktyping::layout::generate_lines;

fn chars(s: &str) -> Vec<char> {
    s.chars().collect()
}

fn strings(lines: &Vec<Vec<char>>) -> Vec<String> {
    lines.iter().map(|l| l.iter().collect::<String>()).collect()
}

const FOX: &str = "the quick brown fox jumps over the lazy dog ";

#[test]
fn wrap_empty_text_gives_one_empty_line() {
    let (lines, index) = generate_lines(&chars(""), 5);
    assert_eq!(strings(&lines), vec![String::new()]);
    assert!(index.is_empty());
}

#[test]
fn wrap_empty_text_at_width_zero() {
    let (lines, index) = generate_lines(&chars(""), 0);
    assert_eq!(strings(&lines), vec![String::new(), String::new()]);
    assert!(index.is_empty());
}

#[test]
fn wrap_one_line_when_wide_enough() {
    let (lines, index) = generate_lines(&chars(FOX), 100);
    assert_eq!(strings(&lines), vec![FOX.to_string()]);
    assert_eq!(index.len(), 44);
    for (i, entry) in index.iter().enumerate() {
        assert_eq!(*entry, (0, i));
    }
}

#[test]
fn wrap_keeps_lines_strictly_under_the_width() {
    let (lines, _) = generate_lines(&chars(FOX), 10);
    assert_eq!(
        strings(&lines),
        vec!["the ", "quick ", "brown ", "fox ", "jumps ", "over the ", "lazy dog "]
    );
    let (lines, _) = generate_lines(&chars(FOX), 16);
    assert_eq!(
        strings(&lines),
        vec!["the quick ", "brown fox ", "jumps over the ", "lazy dog "]
    );
}

#[test]
fn wrap_word_that_fills_the_width_exactly_moves_on() {
    let (lines, _) = generate_lines(&chars("hello world "), 12);
    assert_eq!(strings(&lines), vec!["hello ", "world "]);
    let (lines, _) = generate_lines(&chars("hello world "), 13);
    assert_eq!(strings(&lines), vec!["hello world "]);
}

#[test]
fn wrap_first_word_too_long_leaves_first_line_empty() {
    let (lines, index) = generate_lines(&chars("abcdefghijkl mn "), 5);
    assert_eq!(strings(&lines), vec!["", "abcdefghijkl ", "mn "]);
    assert_eq!(index.len(), 16);
    assert_eq!(index[0], (1, 0));
    assert_eq!(index[12], (1, 12));
    assert_eq!(index[13], (2, 0));
    assert_eq!(index[15], (2, 2));
}

#[test]
fn wrap_long_word_stands_alone() {
    let (lines, _) = generate_lines(&chars("a extraordinarily b "), 6);
    assert_eq!(strings(&lines), vec!["a ", "extraordinarily ", "b "]);
}

#[test]
fn wrap_trailing_word_that_fits_joins_the_line() {
    let (lines, index) = generate_lines(&chars("the quick brown fox"), 10);
    assert_eq!(strings(&lines), vec!["the ", "quick ", "brown fox"]);
    assert_eq!(index[10], (2, 0));
    assert_eq!(index[16], (2, 6));
    assert_eq!(index[18], (2, 8));
}

#[test]
fn wrap_trailing_word_that_overflows_starts_a_line_at_column_zero() {
    let (lines, index) = generate_lines(&chars("ab cd"), 3);
    assert_eq!(strings(&lines), vec!["", "ab ", "cd"]);
    assert_eq!(index, vec![(1, 0), (1, 1), (1, 2), (2, 0), (2, 1)]);
    let (lines, index) = generate_lines(&chars("ab cd ef"), 7);
    assert_eq!(strings(&lines), vec!["ab cd ", "ef"]);
    assert_eq!(index[6], (1, 0));
    assert_eq!(index[7], (1, 1));
}

#[test]
fn wrap_width_zero_puts_every_word_on_its_own_line() {
    let (lines, _) = generate_lines(&chars("a b "), 0);
    assert_eq!(strings(&lines), vec!["", "a ", "b ", ""]);
}

#[test]
fn index_has_one_entry_per_offset_and_points_at_the_character() {
    for width in [1usize, 2, 5, 8, 10, 16, 44, 45, 100] {
        let text = chars(FOX);
        let (lines, index) = generate_lines(&text, width);
        assert_eq!(index.len(), text.len());
        for (i, &(line, column)) in index.iter().enumerate() {
            assert_eq!(lines[line][column], text[i]);
        }
        let total: usize = lines.iter().map(|l| l.len()).sum();
        assert_eq!(total, text.len());
        let joined: Vec<char> = lines.iter().flatten().copied().collect();
        assert_eq!(joined, text);
    }
}

#[test]
fn index_is_strictly_increasing() {
    for width in [1usize, 3, 7, 12, 30] {
        let (_, index) = generate_lines(&chars(FOX), width);
        for pair in index.windows(2) {
            assert!(pair[0] < pair[1]);
            assert!(
                (pair[1].0 == pair[0].0 && pair[1].1 == pair[0].1 + 1)
                    || (pair[1].0 == pair[0].0 + 1 && pair[1].1 == 0)
            );
        }
    }
}

#[test]
fn no_line_reaches_the_width_unless_it_is_one_word() {
    for width in [1usize, 3, 7, 12, 30] {
        let (lines, _) = generate_lines(&chars("a bb ccc dddddddddddddddd e ff"), width);
        for line in &lines {
            let inner_space = line.iter().rev().skip(1).any(|&c| c == ' ');
            assert!(line.len() < width || !inner_space);
        }
    }
}
