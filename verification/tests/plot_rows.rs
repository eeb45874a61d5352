use nanovna_saver::plot::{latest_sweep_rows, PlotRow};

fn row(ch: &str, vna: i32, sid: &str) -> PlotRow {
    PlotRow {
        channel: Some(ch.to_string()),
        vna_number: Some(vna),
        sweep_id: Some(sid.to_string()),
        has_values: true,
    }
}

#[test]
fn only_the_last_sweep_of_each_analyser_is_plotted() {
    let rows = vec![
        row("S11", 1, "a"),
        row("S21", 1, "a"),
        row("S11", 2, "b"),
        row("S11", 1, "c"),
        row("S21", 1, "c"),
        row("S21", 2, "b"),
    ];
    let (s11, s21) = latest_sweep_rows(&rows);
    assert_eq!(s11, vec![vec![3], vec![2]]);
    assert_eq!(s21, vec![vec![4], vec![5]]);
}

#[test]
fn incomplete_and_other_channel_rows_are_left_out() {
    let mut missing = row("S11", 1, "a");
    missing.has_values = false;
    let rows = vec![missing, row("S12", 1, "a"), row("S11", 1, "a")];
    let (s11, s21) = latest_sweep_rows(&rows);
    assert_eq!(s11, vec![vec![2]]);
    assert_eq!(s21, vec![Vec::<usize>::new()]);
}

#[test]
fn no_analyser_gives_one_empty_lane() {
    let rows = vec![PlotRow { channel: None, vna_number: None, sweep_id: None, has_values: false }];
    let (s11, s21) = latest_sweep_rows(&rows);
    assert_eq!(s11, vec![Vec::<usize>::new()]);
    assert_eq!(s21, vec![Vec::<usize>::new()]);
}

#[test]
fn lanes_reach_the_highest_analyser_number() {
    let rows = vec![row("S11", 3, "z")];
    let (s11, _) = latest_sweep_rows(&rows);
    assert_eq!(s11, vec![vec![], vec![], vec![0]]);
}
