use std::io::Write;

use scramble::colors;
use scramble::scr::encode;
use scramble::terminal::dimensions_or_default;
use scramble::{get_dimensions, CellWrite, ColoredChar, ColoredText, Scr};

fn flush(scr: &mut Scr) {
    let out = scr.render();
    let mut stdout = std::io::stdout().lock();
    stdout.write_all(out.as_bytes()).expect("Failed to write to stdout!");
    stdout.flush().expect("Failed to flush stdout!");
}

fn positions(writes: &[CellWrite]) -> Vec<(usize, usize)> {
    writes.iter().map(|w| (w.row, w.col)).collect()
}

#[test]
fn it_works() {
    let mut scr = Scr::new();
    let mut x: usize = 0;
    let (_w, _h) = scr.dimensions();
    scr.set_text(&mut x, 3, &ColoredText::new("hi this is red".to_string(), colors::RED.to_string()));
    flush(&mut scr);
    scr.set_text(&mut x, 4, &ColoredText::new("hi this is blue".to_string(), colors::BLUE.to_string()));
    flush(&mut scr);
    scr.set_text(
        &mut x,
        5,
        &ColoredText::new(
            "hi this has green bg and black text".to_string(),
            colors::BG_GREEN.to_string() + colors::BLACK,
        ),
    );
    flush(&mut scr);

    for i in 0..10000 {
        scr.set_text(
            &mut x,
            7,
            &ColoredText::new(
                "look im incrementing in orange -> ".to_string() + &(i + 1).to_string(),
                colors::MAGENTA.to_string(),
            ),
        );
        flush(&mut scr);
    }

    scr.set_text(&mut x, 10, &ColoredText::new_plain("Press enter to clear the screen".to_string()))
        .set_text(
            &mut x,
            8,
            &ColoredText::new_plain(
                "However, updating the screen is really slow beacuse how this is implemented"
                    .to_string(),
            ),
        );
    flush(&mut scr);

    scr.clear();
    flush(&mut scr);
}

#[test]
fn second_flush_emits_only_the_parking_directive() {
    let mut scr = Scr::with_dimensions(10, 5);
    let mut x: usize = 0;
    scr.set_text(&mut x, 1, &ColoredText::new_plain("abc".to_string()));
    let first = scr.render();
    assert!(first.len() > "\x1b[4;10H".len());
    assert_eq!(scr.render(), "\x1b[4;10H");
    assert!(scr.diff().is_empty());
}

#[test]
fn one_changed_cell_gives_one_write() {
    let mut scr = Scr::with_dimensions(6, 3);
    let mut x: usize = 0;
    scr.set_text(&mut x, 0, &ColoredText::new_plain("hello".to_string()));
    scr.render();
    x = 1;
    scr.set_text(&mut x, 0, &ColoredText::new_plain("a".to_string()));
    let writes = scr.diff();
    assert_eq!(positions(&writes), vec![(0, 1)]);
    assert_eq!(*writes[0].cell.contents(), 'a');
    assert_eq!(writes[0].cell.prefix(), colors::RESET);
}

#[test]
fn writes_follow_the_differing_cells_in_row_major_order() {
    let mut scr = Scr::with_dimensions(4, 3);
    scr.render();
    let mut x: usize = 2;
    scr.set_text(&mut x, 2, &ColoredText::new("pq".to_string(), String::new()));
    x = 0;
    scr.set_text(&mut x, 0, &ColoredText::new("z".to_string(), String::new()));
    // same character and style as the blank already shown: no write
    x = 3;
    scr.set_text(&mut x, 1, &ColoredText::new_plain(" ".to_string()));
    let writes = scr.diff();
    assert_eq!(positions(&writes), vec![(0, 0), (2, 2), (2, 3)]);
}

#[test]
fn cursor_is_left_where_it_was() {
    let mut scr = Scr::with_dimensions(5, 2);
    let mut x: usize = 1;
    scr.set_text(&mut x, 0, &ColoredText::new_plain("abc".to_string()));
    assert_eq!(x, 1);
    scr.set_text(&mut x, 1, &ColoredText::new_plain("a much longer text".to_string()));
    assert_eq!(x, 1);
    scr.set_text(&mut x, 7, &ColoredText::new_plain("abc".to_string()));
    assert_eq!(x, 1);
    scr.set_text(&mut x, 0, &ColoredText::new_plain(String::new()));
    assert_eq!(x, 1);
    x = 9;
    scr.set_text(&mut x, 0, &ColoredText::new_plain("abc".to_string()));
    assert_eq!(x, 9);
}

#[test]
fn text_past_the_last_column_is_dropped() {
    let mut scr = Scr::with_dimensions(5, 2);
    scr.render();
    let mut x: usize = 3;
    scr.set_text(&mut x, 1, &ColoredText::new("hello".to_string(), colors::RED.to_string()));
    let writes = scr.diff();
    assert_eq!(positions(&writes), vec![(1, 3), (1, 4)]);
    assert_eq!(*writes[0].cell.contents(), 'h');
    assert_eq!(*writes[1].cell.contents(), 'e');
    assert_eq!(writes[1].cell.prefix(), colors::RED);
}

#[test]
fn start_past_the_last_column_places_nothing() {
    let mut scr = Scr::with_dimensions(5, 2);
    scr.render();
    let mut x: usize = 5;
    scr.set_text(&mut x, 0, &ColoredText::new_plain("abc".to_string()));
    assert!(scr.diff().is_empty());
}

#[test]
fn row_past_the_last_one_changes_nothing() {
    let mut scr = Scr::with_dimensions(5, 2);
    scr.render();
    let mut x: usize = 0;
    scr.set_text(&mut x, 2, &ColoredText::new_plain("abc".to_string()));
    scr.set_text(&mut x, usize::MAX, &ColoredText::new_plain("abc".to_string()));
    assert!(scr.diff().is_empty());
}

#[test]
fn clear_then_flush_blanks_exactly_the_written_cells() {
    let mut scr = Scr::with_dimensions(10, 5);
    let mut x: usize = 0;
    scr.set_text(&mut x, 2, &ColoredText::new_plain("hi".to_string()));
    scr.render();
    scr.clear();
    let writes = scr.diff();
    assert_eq!(positions(&writes), vec![(2, 0), (2, 1)]);
    for w in &writes {
        assert_eq!(*w.cell.contents(), ' ');
        assert_eq!(w.cell.prefix(), colors::RESET);
    }
    assert_eq!(
        encode(&writes, 10, 5),
        "\x1b[0m\x1b[3;1H \x1b[0m\x1b[0m\x1b[3;2H \x1b[0m\x1b[4;10H"
    );
    assert!(scr.diff().is_empty());
}

#[test]
fn clear_then_flush_scenario_through_render() {
    let mut scr = Scr::with_dimensions(10, 5);
    let mut x: usize = 0;
    scr.set_text(&mut x, 2, &ColoredText::new_plain("hi".to_string()));
    scr.render();
    scr.clear();
    assert_eq!(
        scr.render(),
        "\x1b[0m\x1b[3;1H \x1b[0m\x1b[0m\x1b[3;2H \x1b[0m\x1b[4;10H"
    );
    assert_eq!(scr.render(), "\x1b[4;10H");
}

#[test]
fn first_flush_writes_every_cell() {
    let mut scr = Scr::with_dimensions(3, 2);
    let writes = scr.diff();
    assert_eq!(
        positions(&writes),
        vec![(0, 0), (0, 1), (0, 2), (1, 0), (1, 1), (1, 2)]
    );
    for w in &writes {
        assert_eq!(*w.cell.contents(), ' ');
        assert_eq!(w.cell.prefix(), colors::RESET);
    }
    assert!(scr.diff().is_empty());
}

#[test]
fn first_flush_of_a_new_screen_writes_every_cell() {
    let mut scr = Scr::new();
    let (w, h) = scr.dimensions();
    assert_eq!(scr.diff().len(), w * h);
}

#[test]
fn default_screen_has_positive_size() {
    let scr = Scr::default();
    let (w, h) = scr.dimensions();
    assert!(w > 0 && h > 0);
}

#[test]
fn render_emits_style_position_character_and_reset() {
    let mut scr = Scr::with_dimensions(20, 15);
    scr.render();
    let mut x: usize = 11;
    scr.set_text(&mut x, 12, &ColoredText::new("Q".to_string(), colors::RED.to_string()));
    assert_eq!(scr.render(), "\x1b[31m\x1b[13;12HQ\x1b[0m\x1b[14;20H");
}

#[test]
fn encode_of_no_writes_only_parks() {
    assert_eq!(encode(&Vec::new(), 80, 24), "\x1b[23;80H");
    assert_eq!(encode(&Vec::new(), 1, 1), "\x1b[0;1H");
}

#[test]
fn encode_writes_multi_digit_positions() {
    let writes = vec![CellWrite { row: 99, col: 123, cell: ColoredChar::new('é', "S".to_string()) }];
    assert_eq!(encode(&writes, 200, 100), "S\x1b[100;124Hé\x1b[0m\x1b[99;200H");
}

#[test]
fn dimensions_reports_the_constructed_size() {
    let scr = Scr::with_dimensions(7, 3);
    assert_eq!(scr.dimensions(), (7, 3));
}

#[test]
fn default_dimensions_are_80_by_24() {
    assert_eq!(dimensions_or_default(None), (80, 24));
    assert_eq!(dimensions_or_default(Some((132, 43))), (132, 43));
}

#[test]
fn terminal_dimensions_are_positive() {
    let (w, h) = get_dimensions();
    assert!(w > 0 && h > 0);
}

#[test]
fn colored_text_accessors() {
    let t = ColoredText::new("abc".to_string(), colors::GREEN.to_string());
    assert_eq!(t.contents(), "abc");
    assert_eq!(t.prefix(), "\x1b[32m");
    let p = ColoredText::new_plain(String::new());
    assert_eq!(p.contents(), "");
    assert_eq!(p.prefix(), "\x1b[0m");
}

#[test]
fn colored_char_equality_is_by_character_and_style() {
    let a = ColoredChar::new('x', colors::RED.to_string());
    assert_eq!(*a.contents(), 'x');
    assert_eq!(a.prefix(), "\x1b[31m");
    assert!(a == ColoredChar::new('x', colors::RED.to_string()));
    assert!(a != ColoredChar::new('y', colors::RED.to_string()));
    assert!(a != ColoredChar::new('x', colors::BLUE.to_string()));
    assert!(a.duplicate() == a);
}
