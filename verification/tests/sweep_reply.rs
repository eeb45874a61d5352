use nanovna_saver::sweep_text::{sweep_value_pairs, trimmed};

fn pairs(text: &str, stop: bool) -> Vec<(String, String)> {
    sweep_value_pairs(text, stop)
}

fn p(a: &str, b: &str) -> (String, String) {
    (a.to_string(), b.to_string())
}

#[test]
fn value_pairs_skip_banner_echo_and_blank_lines() {
    let text = "data 0\r\n1.5 -2.25\r\n\r\nNanoVNA-H\r\n  3e-1\t4 extra\r\nch> ";
    assert_eq!(pairs(text, false), vec![p("1.5", "-2.25"), p("3e-1", "4")]);
}

#[test]
fn prompt_line_is_skipped_for_s11_and_ends_s21() {
    let text = "1 2\nch>\n3 4\n";
    assert_eq!(pairs(text, false), vec![p("1", "2"), p("3", "4")]);
    assert_eq!(pairs(text, true), vec![p("1", "2")]);
}

#[test]
fn comma_separated_values_give_no_pair() {
    let text = "0.000000,0.000000\r\n".repeat(3) + "ch>";
    assert!(pairs(&text, false).is_empty());
}

#[test]
fn single_field_lines_give_no_pair() {
    assert!(pairs("x\nx\n\n", false).is_empty());
    assert!(pairs("", true).is_empty());
}

#[test]
fn unicode_whitespace_separates_fields() {
    assert_eq!(pairs("\u{a0}7\u{2003}8\u{3000}", false), vec![p("7", "8")]);
}

#[test]
fn trimmed_drops_unicode_whitespace() {
    assert_eq!(trimmed(" \t\u{a0}label x\u{2029}\n"), "label x");
    assert_eq!(trimmed("   "), "");
}
