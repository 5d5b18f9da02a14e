use depmap_downloader::csv::parse_csv;
use depmap_downloader::text::contains_sub;
use depmap_downloader::text::contains_sub_ci;
use depmap_downloader::text::eq_bytes;
use depmap_downloader::text::eq_sub_ci;
use depmap_downloader::text::is_decimal_text_exec;
use depmap_downloader::text::lower_ascii;
use depmap_downloader::text::parse_u32_digits;
use depmap_downloader::text::starts_with_sub_ci;

fn recs(input: &str) -> Vec<Vec<Vec<u8>>> {
    parse_csv(input.as_bytes())
}

fn rec(fields: &[&str]) -> Vec<Vec<u8>> {
    fields.iter().map(|f| f.as_bytes().to_vec()).collect()
}

#[test]
fn csv_two_records() {
    assert_eq!(recs("a,b\nc,d\n"), vec![rec(&["a", "b"]), rec(&["c", "d"])]);
}

#[test]
fn csv_no_trailing_newline() {
    assert_eq!(recs("a,b\nc,d"), vec![rec(&["a", "b"]), rec(&["c", "d"])]);
}

#[test]
fn csv_crlf_and_blank_lines() {
    assert_eq!(recs("a,b\r\n\r\n\nc,d\r\n"), vec![rec(&["a", "b"]), rec(&["c", "d"])]);
}

#[test]
fn csv_quoted_field_with_comma_and_newline() {
    assert_eq!(recs("\"a,b\",c\n"), vec![rec(&["a,b", "c"])]);
    assert_eq!(recs("\"line1\nline2\",x\n"), vec![rec(&["line1\nline2", "x"])]);
}

#[test]
fn csv_escaped_quote() {
    assert_eq!(recs("\"a\"\"b\",c\n"), vec![rec(&["a\"b", "c"])]);
}

#[test]
fn csv_empty_fields() {
    assert_eq!(recs(",\n"), vec![rec(&["", ""])]);
    assert_eq!(recs("a,\n"), vec![rec(&["a", ""])]);
}

#[test]
fn csv_empty_input() {
    assert_eq!(recs(""), Vec::<Vec<Vec<u8>>>::new());
}

#[test]
fn csv_quoted_empty_field_is_a_record() {
    assert_eq!(recs("\"\"\n"), vec![rec(&[""])]);
}

#[test]
fn contains_and_case_folding() {
    assert!(contains_sub(b"CRISPR_data", b"CRISPR"));
    assert!(!contains_sub(b"CRISPR_data", b"crispr"));
    assert!(contains_sub_ci(b"CRISPR_data", b"crispr"));
    assert!(contains_sub_ci(b"omics_RNAi.csv", b"rnai"));
    assert!(!contains_sub_ci(b"omics.csv", b"rnai"));
    assert!(contains_sub(b"abc", b""));
    assert_eq!(lower_ascii(b"A-Zaz09"), b"a-zaz09".to_vec());
}

#[test]
fn byte_equality() {
    assert!(eq_bytes(b"abc", b"abc"));
    assert!(!eq_bytes(b"abc", b"abd"));
    assert!(!eq_bytes(b"abc", b"ab"));
    assert!(eq_sub_ci(b"True", b"tRUE"));
    assert!(!eq_sub_ci(b"True", b"False"));
    assert!(starts_with_sub_ci(b"BRCA1A", b"brca1"));
    assert!(!starts_with_sub_ci(b"XBRCA1", b"brca1"));
}

#[test]
fn digit_parsing() {
    assert_eq!(parse_u32_digits(b"0"), Some(0));
    assert_eq!(parse_u32_digits(b"672"), Some(672));
    assert_eq!(parse_u32_digits(b"4294967295"), Some(u32::MAX));
    assert_eq!(parse_u32_digits(b"4294967296"), None);
    assert_eq!(parse_u32_digits(b"00000000000672"), Some(672));
    assert_eq!(parse_u32_digits(b""), None);
    assert_eq!(parse_u32_digits(b"12a"), None);
    assert_eq!(parse_u32_digits(b"-5"), None);
}

#[test]
fn decimal_text() {
    assert!(is_decimal_text_exec(b"0"));
    assert!(is_decimal_text_exec(b"123.45"));
    assert!(is_decimal_text_exec(b"-7.5"));
    assert!(is_decimal_text_exec(b"+2"));
    assert!(!is_decimal_text_exec(b""));
    assert!(!is_decimal_text_exec(b"."));
    assert!(!is_decimal_text_exec(b"1."));
    assert!(!is_decimal_text_exec(b".5"));
    assert!(!is_decimal_text_exec(b"1.2.3"));
    assert!(!is_decimal_text_exec(b"abc"));
}
