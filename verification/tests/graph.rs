use sway_window_nav::graph::BrailleGraph;
use sway_window_nav::interval::dur_from_str_secs;

#[test]
fn new_graph_renders_empty_cells() {
    let g = BrailleGraph::new(3);
    assert_eq!(g.render(), "\u{2800}\u{2800}\u{2800}");
}

#[test]
fn update_slides_the_window() {
    let mut g = BrailleGraph::new(2);
    g.update(100);
    assert_eq!(g.render(), "\u{2800}\u{28FF}");
    g.update(50);
    assert_eq!(g.render(), "\u{28FF}\u{28E4}");
    g.update(0);
    assert_eq!(g.render(), "\u{28E4}\u{2800}");
}

#[test]
fn zero_length_graph_still_accepts_samples() {
    let mut g = BrailleGraph::new(0);
    assert_eq!(g.render(), "");
    g.update(100);
    assert_eq!(g.render(), "\u{28FF}");
    g.update(50);
    assert_eq!(g.render(), "\u{28E4}");
}

#[test]
fn threshold_boundaries() {
    assert_eq!(BrailleGraph::pct_thresholds(0), 0);
    assert_eq!(BrailleGraph::pct_thresholds(20), 0);
    assert_eq!(BrailleGraph::pct_thresholds(21), 1);
    assert_eq!(BrailleGraph::pct_thresholds(40), 1);
    assert_eq!(BrailleGraph::pct_thresholds(41), 2);
    assert_eq!(BrailleGraph::pct_thresholds(60), 2);
    assert_eq!(BrailleGraph::pct_thresholds(61), 3);
    assert_eq!(BrailleGraph::pct_thresholds(80), 3);
    assert_eq!(BrailleGraph::pct_thresholds(81), 4);
    assert_eq!(BrailleGraph::pct_thresholds(100), 4);
}

#[test]
fn mid_levels_render_expected_cells() {
    let mut g = BrailleGraph::new(4);
    g.update(25);
    g.update(45);
    g.update(65);
    g.update(85);
    assert_eq!(g.render(), "\u{28C0}\u{28E4}\u{28F6}\u{28FF}");
}

#[test]
fn interval_accepts_plain_seconds() {
    assert_eq!(dur_from_str_secs("5"), Ok(5));
    assert_eq!(dur_from_str_secs("0"), Ok(0));
    assert_eq!(dur_from_str_secs("007"), Ok(7));
    assert_eq!(dur_from_str_secs("+12"), Ok(12));
    assert_eq!(dur_from_str_secs("18446744073709551615"), Ok(18446744073709551615));
}

#[test]
fn interval_rejects_everything_else() {
    let msg = Err(String::from("value not a valid integer"));
    assert_eq!(dur_from_str_secs(""), msg);
    assert_eq!(dur_from_str_secs("+"), msg);
    assert_eq!(dur_from_str_secs("-3"), msg);
    assert_eq!(dur_from_str_secs("1.5"), msg);
    assert_eq!(dur_from_str_secs("12a"), msg);
    assert_eq!(dur_from_str_secs("a12"), msg);
    assert_eq!(dur_from_str_secs("18446744073709551616"), msg);
    assert_eq!(dur_from_str_secs(" 4"), msg);
}
