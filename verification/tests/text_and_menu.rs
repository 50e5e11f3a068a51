use cancersongpaster::input::{menu_input, resolve_selection, SelectionError};
use cancersongpaster::text::{char_is_white_space, join_lines, trim_end};

fn opts(v: &[&str]) -> Vec<String> {
    v.iter().map(|s| s.to_string()).collect()
}

#[test]
fn trim_end_drops_trailing_white_space() {
    assert_eq!(trim_end("song \n"), "song");
    assert_eq!(trim_end("  song"), "  song");
    assert_eq!(trim_end("a b\t\r\n\u{3000}\u{a0}"), "a b");
    assert_eq!(trim_end(" \n "), "");
    assert_eq!(trim_end(""), "");
    assert_eq!(trim_end("x\u{200b}"), "x\u{200b}");
}

#[test]
fn white_space_matches_std() {
    for u in 0u32..0x3100 {
        if let Some(c) = char::from_u32(u) {
            assert_eq!(char_is_white_space(c), c.is_whitespace(), "{:x}", u);
        }
    }
}

#[test]
fn join_puts_line_feeds_between() {
    assert_eq!(join_lines(&opts(&["a", "b", "c"])), "a\nb\nc");
    assert_eq!(join_lines(&opts(&["only"])), "only");
    assert_eq!(join_lines(&opts(&[])), "");
    assert_eq!(menu_input(&opts(&["x", ""])), "x\n");
}

#[test]
fn cancelled_menu() {
    let r = resolve_selection(&opts(&["a"]), false, b"a\n".to_vec());
    assert!(matches!(r, Err(SelectionError::Cancelled)));
}

#[test]
fn answer_not_utf8() {
    let r = resolve_selection(&opts(&["a"]), true, vec![0x61, 0xff, 0x0a]);
    assert!(matches!(r, Err(SelectionError::BadInput)));
}

#[test]
fn answer_with_line_feed_selects() {
    let r = resolve_selection(&opts(&["intro", "verse", "chorus"]), true, b"verse\n".to_vec());
    assert_eq!(r.unwrap(), 1);
}

#[test]
fn first_equal_option_is_selected() {
    let r = resolve_selection(&opts(&["x", "dup", "dup"]), true, "dup \u{3000}".as_bytes().to_vec());
    assert_eq!(r.unwrap(), 1);
}

#[test]
fn unknown_answer() {
    let r = resolve_selection(&opts(&["a", "b"]), true, b"c\n".to_vec());
    assert!(matches!(r, Err(SelectionError::BadInput)));
    let r = resolve_selection(&opts(&["a"]), true, b" a".to_vec());
    assert!(matches!(r, Err(SelectionError::BadInput)));
}

#[test]
fn non_ascii_answer() {
    let r = resolve_selection(&opts(&["песня", "другая"]), true, "другая\n".as_bytes().to_vec());
    assert_eq!(r.unwrap(), 1);
}
