use noontide_emu::lines::{copy_text, find_line_end, find_line_stop, split_lines};

fn chars(text: &str) -> Vec<char> {
    text.chars().collect()
}

#[test]
fn line_ends_at_the_line_feed() {
    let text = chars("ab\r\ncd\n\nef");
    assert_eq!(find_line_end(&text, 0), 3);
    assert_eq!(find_line_end(&text, 2), 3);
    assert_eq!(find_line_end(&text, 3), 3);
    assert_eq!(find_line_end(&text, 4), 6);
    assert_eq!(find_line_end(&text, 7), 7);
    assert_eq!(find_line_end(&text, 8), 10);
    assert_eq!(find_line_end(&text, 10), 10);
    assert_eq!(find_line_stop(&text, 0, 3), 2);
    assert_eq!(find_line_stop(&text, 4, 6), 6);
    assert_eq!(find_line_stop(&text, 7, 7), 7);
    assert_eq!(find_line_stop(&text, 8, 10), 10);
    // A carriage return that begins the next line is no part of this line's end.
    let text = chars("\n\r\n");
    assert_eq!(find_line_stop(&text, 0, 0), 0);
    assert_eq!(find_line_stop(&text, 1, 2), 1);
}

#[test]
fn lines_are_found_with_their_ranges() {
    assert_eq!(split_lines(&chars("ab\r\ncd\n\nef")), vec![(0, 2), (4, 6), (7, 7), (8, 10)]);
    assert_eq!(split_lines(&chars("")), vec![]);
    assert_eq!(split_lines(&chars("\n")), vec![(0, 0)]);
    assert_eq!(split_lines(&chars("x")), vec![(0, 1)]);
    assert_eq!(split_lines(&chars("x\r")), vec![(0, 2)]);
    assert_eq!(split_lines(&chars("\r\n\r\n")), vec![(0, 0), (2, 2)]);
}

#[test]
fn text_is_copied_by_range() {
    let text = chars("h\u{e9}llo w\u{4e16}rld");
    assert_eq!(copy_text(&text, 0, 5), "h\u{e9}llo");
    assert_eq!(copy_text(&text, 6, 11), "w\u{4e16}rld");
    assert_eq!(copy_text(&text, 3, 3), "");
}
