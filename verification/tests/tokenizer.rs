use clop::{TokenRanges, Tokens};

#[test]
fn test_simple() {
    let mut tokens = Tokens::from("hello world  ");
    let mut tokens_r = TokenRanges::from("  hello world");

    assert_eq!(Some("hello"), tokens.next());
    assert_eq!(Some(2..7), tokens_r.next());

    assert_eq!(Some("world"), tokens.next());
    assert_eq!(Some(8..13), tokens_r.next());

    assert_eq!(None, tokens.next());
    assert_eq!(None, tokens_r.next());
}

#[test]
fn test_quotes() {
    let mut tokens = Tokens::from("  \"cmdopt.exe\"\tsome\" arg \" +1");
    let mut tokens_r = TokenRanges::from("\"cmdopt.exe\"\tsome\" arg \" +1  ");

    assert_eq!(Some("\"cmdopt.exe\""), tokens.next());
    assert_eq!(Some(0..12), tokens_r.next());

    assert_eq!(Some("some\" arg \""), tokens.next());
    assert_eq!(Some(13..24), tokens_r.next());

    assert_eq!(Some("+1"), tokens.next());
    assert_eq!(Some(25..27), tokens_r.next());

    assert_eq!(None, tokens.next());
    assert_eq!(None, tokens_r.next());
}

#[test]
fn quoted_whitespace_is_one_token() {
    let mut tokens = Tokens::from("\"a b\"");
    assert_eq!(Some("\"a b\""), tokens.next());
    assert_eq!(None, tokens.next());

    let mut ranges = TokenRanges::from("\"a b\"");
    assert_eq!(Some(0..5), ranges.next());
    assert_eq!(None, ranges.next());
}

#[test]
fn multi_quote_spans_are_one_token() {
    let mut tokens = Tokens::from("a\"b c\"d");
    assert_eq!(Some("a\"b c\"d"), tokens.next());
    assert_eq!(None, tokens.next());

    let mut ranges = TokenRanges::from("a\"b c\"d");
    assert_eq!(Some(0..7), ranges.next());
    assert_eq!(None, ranges.next());
}

#[test]
fn unterminated_quote_absorbs_to_end() {
    let mut tokens = Tokens::from("ab\"c d");
    assert_eq!(Some("ab\"c d"), tokens.next());
    assert_eq!(None, tokens.next());

    let mut ranges = TokenRanges::from(" ab\"c d");
    assert_eq!(Some(1..7), ranges.next());
    assert_eq!(None, ranges.next());
}

#[test]
fn empty_input_yields_no_tokens() {
    let mut tokens = Tokens::from("");
    assert_eq!(None, tokens.next());

    let mut ranges = TokenRanges::from("");
    assert_eq!(None, ranges.next());
}

#[test]
fn whitespace_only_input_yields_no_tokens() {
    let mut tokens = Tokens::from(" \t\r\n  ");
    assert_eq!(None, tokens.next());

    let mut ranges = TokenRanges::from(" \t\r\n  ");
    assert_eq!(None, ranges.next());
}

#[test]
fn exhaustion_is_idempotent() {
    let mut tokens = Tokens::from("one  ");
    assert_eq!(Some("one"), tokens.next());
    assert_eq!(None, tokens.next());
    assert_eq!(None, tokens.next());
    assert_eq!(None, tokens.next());

    let mut ranges = TokenRanges::from("one  ");
    assert_eq!(Some(0..3), ranges.next());
    assert_eq!(None, ranges.next());
    assert_eq!(None, ranges.next());
}

#[test]
fn vertical_tab_and_form_feed_are_not_whitespace() {
    // The fixed table treats bytes 11 and 12 as ordinary token bytes.
    let mut tokens = Tokens::from("a\u{b}b c\u{c}d");
    assert_eq!(Some("a\u{b}b"), tokens.next());
    assert_eq!(Some("c\u{c}d"), tokens.next());
    assert_eq!(None, tokens.next());
}

#[test]
fn tokens_tail_str_tracks_remainder() {
    let mut tokens = Tokens::from("  hi  there ");
    assert_eq!("  hi  there ", tokens.tail_str());
    assert_eq!(Some("hi"), tokens.next());
    assert_eq!("  there ", tokens.tail_str());
    assert_eq!(Some("there"), tokens.next());
    assert_eq!(" ", tokens.tail_str());
    assert_eq!(None, tokens.next());
    assert_eq!("", tokens.tail_str());
}

#[test]
fn ranges_accessors_track_scan() {
    let mut ranges = TokenRanges::from(" cmd  arg ");
    assert_eq!(" cmd  arg ", ranges.as_str());
    assert_eq!(" cmd  arg ", ranges.tail_str());
    assert_eq!(Some(1..4), ranges.next());
    assert_eq!(" cmd  arg ", ranges.as_str());
    assert_eq!("  arg ", ranges.tail_str());
    assert_eq!(Some(6..9), ranges.next());
    assert_eq!(" ", ranges.tail_str());
    assert_eq!(None, ranges.next());
    assert_eq!("", ranges.tail_str());
    assert_eq!(" cmd  arg ", ranges.as_str());
}

#[test]
fn spans_are_byte_offsets_in_multibyte_input() {
    let mut tokens = Tokens::from("h\u{e9}llo w\u{f6}rld");
    assert_eq!(Some("h\u{e9}llo"), tokens.next());
    assert_eq!(Some("w\u{f6}rld"), tokens.next());
    assert_eq!(None, tokens.next());

    let mut ranges = TokenRanges::from("h\u{e9}llo w\u{f6}rld");
    assert_eq!(Some(0..6), ranges.next());
    assert_eq!(Some(7..13), ranges.next());
    assert_eq!(None, ranges.next());
}

#[test]
fn state_tags_compare_by_variant() {
    let state = clop::State::Fixed(0);
    assert_eq!(clop::State::Fixed(0), state);
    assert_ne!(clop::State::Fixed(1), state);
    assert_ne!(clop::State::Args, state);
}
