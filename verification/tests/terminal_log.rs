use nanovna_saver::terminal::{append_terminal_line, trim_terminal_buffer, MAX_TERMINAL_CHARS};

#[test]
fn append_separates_lines() {
    let mut t = String::new();
    append_terminal_line(&mut t, "first");
    assert_eq!(t, "first");
    append_terminal_line(&mut t, "second");
    assert_eq!(t, "first\nsecond");
    append_terminal_line(&mut t, "");
    assert_eq!(t, "first\nsecond\n");
}

#[test]
fn short_log_is_kept() {
    let mut t = "a\nb".to_string();
    trim_terminal_buffer(&mut t);
    assert_eq!(t, "a\nb");
    let mut t = "y".repeat(MAX_TERMINAL_CHARS);
    trim_terminal_buffer(&mut t);
    assert_eq!(t.len(), MAX_TERMINAL_CHARS);
}

#[test]
fn long_log_is_cut_after_a_line_break() {
    let line = "0123456789";
    let mut t = String::new();
    for _ in 0..30_000 {
        append_terminal_line(&mut t, line);
    }
    assert!(t.len() <= MAX_TERMINAL_CHARS);
    assert!(t.starts_with(line));
    assert!(t.ends_with(line));
    // 11 bytes per line with its break: the most whole lines that fit.
    assert_eq!(t.len(), 18_181 * 11 - 1);
}

#[test]
fn cut_respects_multibyte_characters() {
    // One over the limit: the cut would fall inside "é" (2 bytes), so it
    // moves to the next character; no line break follows.
    let mut t = "é".to_string() + &"z".repeat(MAX_TERMINAL_CHARS - 1);
    trim_terminal_buffer(&mut t);
    assert_eq!(t, "z".repeat(MAX_TERMINAL_CHARS - 1));
}

#[test]
fn cut_without_line_break_keeps_the_tail() {
    let mut t = "q".repeat(MAX_TERMINAL_CHARS + 5);
    trim_terminal_buffer(&mut t);
    assert_eq!(t.len(), MAX_TERMINAL_CHARS);
}

#[test]
fn trimming_twice_changes_nothing() {
    let mut t = "ab\n".repeat(70_000);
    trim_terminal_buffer(&mut t);
    let once = t.clone();
    trim_terminal_buffer(&mut t);
    assert_eq!(t, once);
}
