use rust_svg::path::{lsys_draw_basic, ROW};
use rust_svg::turtle::{lsys_dacts_from_rules, DAct, Heading, Motion};

const AT: &str = "4.2500in 7.6450in ";

fn lines_of(n: usize) -> Vec<DAct> {
    let mut dacts = Vec::new();
    for _ in 0..n {
        dacts.push(DAct::RlineTo(Motion::Unit(Heading { turns: 0, reversals: 0 })));
    }
    dacts
}

#[test]
fn a_full_row_holds_ten_tokens() {
    assert_eq!(ROW, 10);
}

#[test]
fn no_action_gives_no_markup() {
    assert_eq!(lsys_draw_basic(&Vec::new(), AT), "");
}

#[test]
fn moves_and_lines_get_their_letters() {
    let dacts = lsys_dacts_from_rules("Ff[F]").unwrap();
    assert_eq!(
        lsys_draw_basic(&dacts, AT),
        "m 4.2500in 7.6450in l 4.2500in 7.6450in m 4.2500in 7.6450in l 4.2500in 7.6450in m 4.2500in 7.6450in \n"
    );
}

#[test]
fn single_line_of_a_single_segment() {
    let dacts = lsys_dacts_from_rules("F").unwrap();
    assert_eq!(lsys_draw_basic(&dacts, "1in 2in "), "m 1in 2in l 1in 2in \n");
}

#[test]
fn short_row_ends_with_a_line_break() {
    assert_eq!(lsys_draw_basic(&lines_of(1), "X"), "l X\n");
    assert_eq!(lsys_draw_basic(&lines_of(9), "X"), format!("{}\n", "l X".repeat(9)));
}

#[test]
fn full_row_gets_one_line_break_only() {
    assert_eq!(lsys_draw_basic(&lines_of(10), "X"), format!("{}\n", "l X".repeat(10)));
    assert_eq!(
        lsys_draw_basic(&lines_of(20), "X"),
        format!("{}\n{}\n", "l X".repeat(10), "l X".repeat(10))
    );
}

#[test]
fn rows_break_after_every_tenth_token() {
    assert_eq!(
        lsys_draw_basic(&lines_of(11), "X"),
        format!("{}\n{}\n", "l X".repeat(10), "l X")
    );
    assert_eq!(
        lsys_draw_basic(&lines_of(25), "X"),
        format!("{}\n{}\n{}\n", "l X".repeat(10), "l X".repeat(10), "l X".repeat(5))
    );
}

#[test]
fn coordinate_text_is_taken_as_it_is() {
    assert_eq!(lsys_draw_basic(&lines_of(2), ""), "l l \n");
    assert_eq!(lsys_draw_basic(&lines_of(1), "\u{3b1} "), "l \u{3b1} \n");
}
