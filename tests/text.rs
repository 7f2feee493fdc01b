use gcsst::lexer::{next_lexeme, CssToken};
use gcsst::text::{remove_last_char, replace_char, trim, underscore_spaces};

#[test]
fn lib_test_remove_last_char() {
    assert_eq!(remove_last_char("hello"), "hell");
    assert_eq!(remove_last_char("a"), "");
    assert_eq!(remove_last_char(""), "");
}

#[test]
fn remove_last_char_takes_one_whole_character() {
    assert_eq!(remove_last_char("caf\u{e9}"), "caf");
}

#[test]
fn trim_removes_white_space_at_both_ends() {
    assert_eq!(trim("  color \t\n"), "color");
    assert_eq!(trim("\u{a0}a b\u{3000}"), "a b");
    assert_eq!(trim("   "), "");
    assert_eq!(trim(""), "");
}

#[test]
fn underscore_spaces_replaces_every_space() {
    assert_eq!(underscore_spaces("min-width: 700px"), "min-width:_700px");
    assert_eq!(underscore_spaces("  "), "__");
}

#[test]
fn replace_char_swaps_quotes() {
    assert_eq!(replace_char("a \"b\"", '"', '\''), "a 'b'");
}

#[test]
fn next_lexeme_cuts_token_and_block() {
    let (t, head, body, rest) = next_lexeme("  .a").unwrap();
    assert!(matches!(t, CssToken::Delim('.')));
    assert_eq!((head, body, rest), ("  .", "", "a"));
    let (t, head, body, rest) = next_lexeme(" [x=\"y\"] b").unwrap();
    assert!(matches!(t, CssToken::SquareBlock));
    assert_eq!((head, body, rest), (" [", "x=\"y\"]", " b"));
    let (t, head, body, rest) = next_lexeme("not(.b) c").unwrap();
    assert!(matches!(t, CssToken::Function(ref n) if n == "not"));
    assert_eq!((head, body, rest), ("not(", ".b)", " c"));
    let (t, _, body, rest) = next_lexeme("{ a { b } } c").unwrap();
    assert!(matches!(t, CssToken::CurlyBlock));
    assert_eq!((body, rest), (" a { b } }", " c"));
    assert!(next_lexeme(" /* only a comment */ ").is_none());
}
