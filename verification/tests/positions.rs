use nlf::positions::{line_to_source, source_to_line, Position};

fn pos(line: u32, character: u32) -> Position {
    Position { line, character }
}

#[test]
fn offsets_become_line_and_character() {
    let text = "ab\ncd".to_string();
    assert_eq!(source_to_line(&text, 0), pos(0, 0));
    assert_eq!(source_to_line(&text, 2), pos(0, 2));
    assert_eq!(source_to_line(&text, 3), pos(1, 0));
    assert_eq!(source_to_line(&text, 5), pos(1, 2));
    assert_eq!(source_to_line(&text, 6), pos(2, 0));
}

#[test]
fn positions_become_offsets() {
    let text = "ab\ncd".to_string();
    assert_eq!(line_to_source(&text, pos(0, 1)), 1);
    assert_eq!(line_to_source(&text, pos(1, 1)), 4);
    assert_eq!(line_to_source(&text, pos(2, 0)), 0);
}

#[test]
fn a_final_newline_opens_no_line() {
    let text = "a\n".to_string();
    assert_eq!(source_to_line(&text, 2), pos(1, 0));
    assert_eq!(source_to_line(&String::new(), 0), pos(0, 0));
    assert_eq!(line_to_source(&String::new(), pos(0, 3)), 0);
}

#[test]
fn a_carriage_return_before_a_newline_is_not_counted() {
    let text = "a\r\nb".to_string();
    assert_eq!(source_to_line(&text, 3), pos(1, 1));
    assert_eq!(line_to_source(&text, pos(1, 0)), 2);
}

#[test]
fn lines_are_measured_in_bytes() {
    let text = "é\nx".to_string();
    assert_eq!(source_to_line(&text, 2), pos(0, 2));
    assert_eq!(source_to_line(&text, 3), pos(1, 0));
    assert_eq!(line_to_source(&text, pos(1, 1)), 4);
}

#[test]
fn a_position_survives_the_round_trip() {
    let text = "let a = 1\nfn f() { }\n".to_string();
    for line in 0..2u32 {
        for character in 0..9u32 {
            let p = pos(line, character);
            assert_eq!(source_to_line(&text, line_to_source(&text, p)), p);
        }
    }
}

#[test]
fn an_offset_survives_the_round_trip() {
    let text = "ab\ncd\n\nxyz".to_string();
    for offset in 0..=text.len() {
        assert_eq!(line_to_source(&text, source_to_line(&text, offset)), offset);
    }
    assert_eq!(source_to_line(&"ab\ncd".to_string(), 4), pos(1, 1));
}
