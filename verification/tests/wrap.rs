use ncspot_core::ui::wrap::wrap_line;

#[test]
fn wrap_short_line_untouched() {
    assert_eq!(wrap_line("hello world", 20), vec!["hello world"]);
}

#[test]
fn wrap_at_word_boundaries() {
    assert_eq!(
        wrap_line("the quick brown fox jumps", 10),
        vec!["the quick", "brown fox", "jumps"]
    );
}

#[test]
fn wrap_hard_splits_overlong_words() {
    assert_eq!(wrap_line("abcdefghij", 4), vec!["abcd", "efgh", "ij"]);
}

#[test]
fn wrap_keeps_empty_lines() {
    assert_eq!(wrap_line("", 10), vec![""]);
}

#[test]
fn wrap_exact_fit() {
    assert_eq!(wrap_line("ab cd", 5), vec!["ab cd"]);
    assert_eq!(wrap_line("ab cde", 5), vec!["ab", "cde"]);
}

#[test]
fn wrapped_rows_are_neat_and_full() {
    let line = "  a bb   ccc dddddddd e ff \t g ";
    let rows = wrap_line(line, 5);
    assert_eq!(rows, vec!["a bb", "ccc", "ddddd", "ddd e", "ff g"]);
    assert!(rows.iter().all(|row| !row.is_empty() && row.trim() == row));
    assert_eq!(wrap_line(" \t ", 5), vec![""]);
}
