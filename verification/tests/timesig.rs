use ctrmml_lang_core::timesig::{
    default_time_signature, parse_time_signature, scan_time_signature, TimeSignature,
};

#[test]
fn parses_4_4() {
    assert_eq!(
        parse_time_signature("4/4"),
        Some(TimeSignature {
            numerator: 4,
            denominator: 4
        })
    );
}

#[test]
fn parses_with_whitespace() {
    assert_eq!(
        parse_time_signature("  3 / 8 "),
        Some(TimeSignature {
            numerator: 3,
            denominator: 8
        })
    );
}

#[test]
fn rejects_zero_components() {
    assert!(parse_time_signature("0/4").is_none());
    assert!(parse_time_signature("4/0").is_none());
}

#[test]
fn rejects_non_integer() {
    assert!(parse_time_signature("4.5/4").is_none());
    assert!(parse_time_signature("foo/bar").is_none());
    assert!(parse_time_signature("").is_none());
}

#[test]
fn rejects_missing_slash() {
    assert!(parse_time_signature("44").is_none());
}

#[test]
fn returns_default_when_no_timesig_line() {
    assert_eq!(scan_time_signature("A o4 cdefg"), Some(default_time_signature()));
}

#[test]
fn returns_explicit_value() {
    let text = "#title \"x\"\n#timesig 3/4\nA o4 cdefg";
    assert_eq!(
        scan_time_signature(text),
        Some(TimeSignature {
            numerator: 3,
            denominator: 4
        })
    );
}

#[test]
fn returns_none_for_explicit_no() {
    assert_eq!(scan_time_signature("#timesig no\nA c"), None);
    assert_eq!(scan_time_signature("#timesig NO\nA c"), None);
}

#[test]
fn falls_back_to_default_on_malformed_value() {
    assert_eq!(
        scan_time_signature("#timesig garbage"),
        Some(default_time_signature())
    );
}

#[test]
fn picks_first_timesig_only() {
    let text = "#timesig 3/4\n#timesig 6/8";
    assert_eq!(
        scan_time_signature(text),
        Some(TimeSignature {
            numerator: 3,
            denominator: 4
        })
    );
}

#[test]
fn ignores_keyword_without_separator() {
    let text = "#timesignature 3/4";
    assert_eq!(scan_time_signature(text), Some(default_time_signature()));
}

#[test]
fn strips_inline_comment() {
    let text = "#timesig 3/4 ; my preferred meter";
    assert_eq!(
        scan_time_signature(text),
        Some(TimeSignature {
            numerator: 3,
            denominator: 4
        })
    );
}

#[test]
fn handles_crlf_line_endings() {
    let text = "#title \"x\"\r\n#timesig 3/4\r\nA c";
    assert_eq!(
        scan_time_signature(text),
        Some(TimeSignature {
            numerator: 3,
            denominator: 4
        })
    );
}

#[test]
fn tolerates_leading_whitespace_on_line() {
    let text = "   #timesig 5/8";
    assert_eq!(
        scan_time_signature(text),
        Some(TimeSignature {
            numerator: 5,
            denominator: 8
        })
    );
}
