use gx1convert::error::ConvertError;
use gx1convert::header::parse_header;
use gx1convert::text::{split_values, trim_str};

fn lines(v: &[&str]) -> Vec<String> {
    v.iter().map(|s| s.to_string()).collect()
}

#[test]
fn parses_a_complete_header() {
    let input = lines(&["SERIES A, B", "SLOPE 1.0, 2.0", "Y_OFFSET 0.0, 0.0"]);
    let header = parse_header(&input).unwrap();
    assert_eq!(header.names, vec!["A".to_string(), "B".to_string()]);
    assert_eq!(header.slope_tokens, vec!["1.0".to_string(), "2.0".to_string()]);
    assert_eq!(header.offset_tokens, vec!["0.0".to_string(), "0.0".to_string()]);
}

#[test]
fn parsed_lists_share_one_length() {
    let input = lines(&[
        "COMMENT recorded yesterday",
        "SERIES ch0, ch1, ch2",
        "SLOPE 0.5, 0.25, 2.0",
        "Y_OFFSET -1.0, 0.0, 3.5",
    ]);
    let header = parse_header(&input).unwrap();
    assert_eq!(header.names.len(), header.slope_tokens.len());
    assert_eq!(header.slope_tokens.len(), header.offset_tokens.len());
    assert_eq!(header.names.len(), 3);
}

#[test]
fn mismatched_list_lengths_are_a_consistency_error() {
    let input = lines(&["SERIES A, B", "SLOPE 1.0", "Y_OFFSET 0.0, 0.0"]);
    assert_eq!(parse_header(&input), Err(ConvertError::HeaderConsistency));
}

#[test]
fn missing_slope_line_is_a_format_error() {
    let input = lines(&["SERIES A, B", "Y_OFFSET 0.0, 0.0"]);
    assert_eq!(parse_header(&input), Err(ConvertError::HeaderFormat));
}

#[test]
fn missing_series_line_is_a_format_error() {
    let input = lines(&["SLOPE 1.0", "Y_OFFSET 0.0"]);
    assert_eq!(parse_header(&input), Err(ConvertError::HeaderFormat));
}

#[test]
fn empty_header_is_a_format_error() {
    let input: Vec<String> = Vec::new();
    assert_eq!(parse_header(&input), Err(ConvertError::HeaderFormat));
}

#[test]
fn keyword_must_start_the_line() {
    let input = lines(&[
        "XSERIES bogus0, bogus1",
        "SERIES real",
        "SLOPE 1.0",
        "Y_OFFSET 0.0",
    ]);
    let header = parse_header(&input).unwrap();
    assert_eq!(header.names, vec!["real".to_string()]);
}

#[test]
fn first_keyword_line_wins() {
    let input = lines(&[
        "SERIES first",
        "SERIES second",
        "SLOPE 1.5",
        "Y_OFFSET 0.5",
    ]);
    let header = parse_header(&input).unwrap();
    assert_eq!(header.names, vec!["first".to_string()]);
    assert_eq!(header.slope_tokens, vec!["1.5".to_string()]);
}

#[test]
fn a_bare_keyword_without_values_does_not_count() {
    let input = lines(&["SERIES", "SLOPE 1.0", "Y_OFFSET 0.0"]);
    assert_eq!(parse_header(&input), Err(ConvertError::HeaderFormat));
}

#[test]
fn value_lists_are_trimmed_before_splitting() {
    let input = lines(&["SERIES   A, B  \t", "SLOPE  1.0, 2.0 ", "Y_OFFSET 0.0, 0.0"]);
    let header = parse_header(&input).unwrap();
    assert_eq!(header.names, vec!["A".to_string(), "B".to_string()]);
    assert_eq!(header.slope_tokens, vec!["1.0".to_string(), "2.0".to_string()]);
}

#[test]
fn split_values_separates_on_comma_space() {
    assert_eq!(split_values("A, B, C"), vec!["A", "B", "C"]);
    assert_eq!(split_values("single"), vec!["single"]);
    assert_eq!(split_values(""), vec![""]);
    assert_eq!(split_values("a,b"), vec!["a,b"]);
    assert_eq!(split_values("a,, b"), vec!["a,", "b"]);
}

#[test]
fn trim_str_removes_surrounding_whitespace_only() {
    assert_eq!(trim_str("  a b \t"), "a b");
    assert_eq!(trim_str("ab"), "ab");
    assert_eq!(trim_str("   "), "");
    assert_eq!(trim_str(""), "");
}

#[test]
fn error_messages_name_their_stage() {
    assert_eq!(
        ConvertError::HeaderFormat.message(),
        "header format error: a required keyword line is missing or a numeric token could not be parsed"
    );
    assert_eq!(
        ConvertError::HeaderConsistency.message(),
        "header consistency error: the SERIES, SLOPE and Y_OFFSET lists have different lengths"
    );
    assert_eq!(
        ConvertError::FileAccess.message(),
        "file access error: an input file could not be opened or the output file could not be created"
    );
    assert_eq!(
        ConvertError::Serialization.message(),
        "serialization error: the output table could not be built or written"
    );
}
