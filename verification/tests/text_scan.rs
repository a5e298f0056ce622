use ctrmml_lang_core::text_scan::{
    double_quote_bounds, is_at_number, is_in_comment, is_in_key_sig, is_in_string,
    single_quote_bounds, token_at, tokenize_outside_double_quotes,
};

#[test]
fn keysig_inside_block() {
    let line = "A _{+c} cd";
    assert!(!is_in_key_sig(line, 3));
    assert!(is_in_key_sig(line, 4));
    assert!(is_in_key_sig(line, 5));
    assert!(is_in_key_sig(line, 6));
    assert!(!is_in_key_sig(line, 7));
}

#[test]
fn keysig_outside_any_block() {
    let line = "A cdefg";
    for col in 0..=line.len() {
        assert!(!is_in_key_sig(line, col), "col {col}");
    }
}

#[test]
fn keysig_after_closed_block() {
    let line = "_{+c} cdefg";
    assert!(!is_in_key_sig(line, 8));
}

#[test]
fn keysig_unterminated_block_keeps_us_inside() {
    let line = "_{+c no close";
    assert!(is_in_key_sig(line, 10));
}

#[test]
fn keysig_lone_open_brace_without_underscore_not_inside() {
    let line = "{a/b/c}";
    assert!(!is_in_key_sig(line, 3));
}

#[test]
fn keysig_col_zero_is_outside() {
    assert!(!is_in_key_sig("_{+c}", 0));
}

#[test]
fn comment_after_semicolon() {
    let line = "abc ; comment";
    assert!(!is_in_comment(line, 3));
    assert!(!is_in_comment(line, 4));
    assert!(is_in_comment(line, 5));
    assert!(is_in_comment(line, 12));
}

#[test]
fn comment_no_semicolon() {
    let line = "abc def";
    for col in 0..=line.len() {
        assert!(!is_in_comment(line, col));
    }
}

#[test]
fn comment_semicolon_inside_double_quote_is_string() {
    let line = "\"; not comment\" ; real comment";
    assert!(!is_in_comment(line, 13));
    assert!(is_in_comment(line, 20));
}

#[test]
fn comment_semicolon_inside_single_quote_is_string() {
    let line = "'; not'; comment";
    assert!(!is_in_comment(line, 5));
    assert!(is_in_comment(line, 10));
}

#[test]
fn comment_double_quote_takes_precedence_over_single() {
    let line = "\"a 'b ; c\" ; real";
    assert!(!is_in_comment(line, 8));
    assert!(is_in_comment(line, 14));
}

#[test]
fn comment_col_zero_never_in_comment() {
    assert!(!is_in_comment("; whole line", 0));
}

#[test]
fn comment_col_past_end_treated_as_end() {
    assert!(!is_in_comment("abc", 999));
    assert!(is_in_comment("a;b", 999));
}

#[test]
fn string_single_quote_run() {
    let line = "'fm3 0011'";
    for col in 0..=9 {
        assert!(is_in_string(line, col), "col {col} should be in string");
    }
}

#[test]
fn string_outside_single_quote_run() {
    let line = "A 'fm3' c";
    assert!(!is_in_string(line, 0));
    assert!(!is_in_string(line, 1));
    assert!(is_in_string(line, 2));
    assert!(is_in_string(line, 3));
    assert!(is_in_string(line, 4));
    assert!(is_in_string(line, 5));
    assert!(is_in_string(line, 6));
    assert!(!is_in_string(line, 7));
    assert!(!is_in_string(line, 8));
}

#[test]
fn string_double_quote_run() {
    let line = "@30 pcm \"a.wav\"";
    for col in 0..=7 {
        assert!(!is_in_string(line, col));
    }
    for col in 8..=14 {
        assert!(is_in_string(line, col), "col {col} should be in string");
    }
}

#[test]
fn string_single_inside_double_not_a_quote() {
    let line = "\"a'b\" c";
    for col in 0..=4 {
        assert!(is_in_string(line, col), "col {col} should be in string");
    }
    assert!(!is_in_string(line, 5));
    assert!(!is_in_string(line, 6));
}

#[test]
fn string_double_inside_single_not_a_quote() {
    let line = "'a\"b' c";
    for col in 0..=4 {
        assert!(is_in_string(line, col), "col {col} should be in string");
    }
    assert!(!is_in_string(line, 5));
    assert!(!is_in_string(line, 6));
}

#[test]
fn string_adjacent_single_quoted_runs() {
    let line = "'tl1 -2''tl3 -2'";
    for col in 0..line.len() {
        assert!(is_in_string(line, col), "col {col} should be in string");
    }
}

#[test]
fn string_unterminated_run_keeps_us_inside() {
    let line = "'fm3 0011 no close";
    for col in 0..line.len() {
        assert!(is_in_string(line, col), "col {col} should be in string");
    }
}

#[test]
fn string_after_semicolon_not_in_string() {
    let line = "; 'fm3'";
    for col in 0..line.len() {
        assert!(
            !is_in_string(line, col),
            "col {col} should not be in string"
        );
    }
}

#[test]
fn string_semicolon_inside_quote_is_not_terminator() {
    let line = "'; still string' x";
    for col in 0..=15 {
        assert!(is_in_string(line, col), "col {col} should be in string");
    }
    assert!(!is_in_string(line, 16));
    assert!(!is_in_string(line, 17));
}

#[test]
fn string_col_past_end_returns_false() {
    assert!(!is_in_string("abc", 999));
    assert!(!is_in_string("'abc'", 999));
}

#[test]
fn is_in_comment_regression_semicolon_inside_single_quote_string() {
    let line = "'; a' ; b";
    assert!(!is_in_comment(line, 2));
    assert!(is_in_comment(line, 7));
}

#[test]
fn token_at_expands_over_special_token_chars() {
    let line = "@12 cde";
    assert_eq!(token_at(line, 1), Some(("@12", 0, 3)));
    assert_eq!(token_at(line, 0), Some(("@12", 0, 3)));
}

#[test]
fn token_at_caret_and_ampersand_are_standalone() {
    let line = "c^d";
    assert_eq!(token_at(line, 1), Some(("^", 1, 2)));
    let line2 = "c&d";
    assert_eq!(token_at(line2, 1), Some(("&", 1, 2)));
}

#[test]
fn token_at_skips_left_over_whitespace() {
    let line = "cde  fgh";
    assert_eq!(token_at(line, 4), Some(("cde", 0, 3)));
}

#[test]
fn token_at_trailing_whitespace_is_safe_after_multibyte_scalars() {
    for (line, expected) in [
        ("A あ ", ("あ", 2, 5)),
        ("A 😀 ", ("😀", 2, 6)),
        ("A 𝄞 ", ("𝄞", 2, 6)),
        ("A c4 あ\t", ("あ", 5, 8)),
    ] {
        assert_eq!(token_at(line, line.len()), Some(expected), "{line:?}");
    }
}

#[test]
fn token_at_empty_line_is_none() {
    assert_eq!(token_at("", 0), None);
}

#[test]
fn quote_aware_tokenizer_keeps_whitespace_inside_paths() {
    assert_eq!(
        tokenize_outside_double_quotes("@1 pcm \"drums and bass/kick.wav\" rate=8000"),
        ["@1", "pcm", "\"drums and bass/kick.wav\"", "rate=8000"]
    );
}

#[test]
fn quote_aware_tokenizer_accepts_tabs_and_unterminated_quotes() {
    assert_eq!(
        tokenize_outside_double_quotes("@1\tpcm\t\"ドラム kick.wav"),
        ["@1", "pcm", "\"ドラム kick.wav"]
    );
}

#[test]
fn is_at_number_accepts_at_followed_by_digits() {
    assert!(is_at_number("@12"));
    assert!(is_at_number("@0"));
}

#[test]
fn is_at_number_rejects_bare_at_and_non_digits() {
    assert!(!is_at_number("@"));
    assert!(!is_at_number("@1a"));
    assert!(!is_at_number("12"));
}

#[test]
fn single_quote_bounds_finds_enclosing_run() {
    let line = "'abc'";
    assert_eq!(single_quote_bounds(line, 2), Some((0, 4)));
}

#[test]
fn single_quote_bounds_none_outside_any_run() {
    let line = "a 'bc' d";
    assert_eq!(single_quote_bounds(line, 0), None);
}

#[test]
fn double_quote_bounds_finds_enclosing_run() {
    let line = "@1 pcm \"a.wav\"";
    assert_eq!(double_quote_bounds(line, 9), Some((7, 13)));
}

#[test]
fn double_quote_bounds_none_outside_any_run() {
    let line = "@1 pcm \"a.wav\"";
    assert_eq!(double_quote_bounds(line, 0), None);
}

#[test]
fn quote_bounds_pair_quotes_from_the_line_start() {
    let line = "'a' 'b'";
    assert_eq!(single_quote_bounds(line, 3), None);
    assert_eq!(single_quote_bounds(line, 1), Some((0, 2)));
    assert_eq!(single_quote_bounds(line, 5), Some((4, 6)));
    assert_eq!(single_quote_bounds(line, 0), None);
    assert_eq!(double_quote_bounds("\"x\" \"y\"", 3), None);
}
