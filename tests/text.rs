use mft::text::{sanitized, to_hex_string, OutputFormat};

#[test]
fn hex_is_upper_case_two_digits_per_byte() {
    assert_eq!(to_hex_string(&[0x00, 0xAB, 0x1F, 0x9]), "00AB1F09");
    assert_eq!(to_hex_string(&[]), "");
}

#[test]
fn sanitized_replaces_separators() {
    assert_eq!(sanitized("a/b/c.txt"), "a_b_c.txt");
    assert_eq!(sanitized("plain"), "plain");
    assert_eq!(sanitized(""), "");
}

#[test]
fn output_format_names() {
    assert_eq!(OutputFormat::from_str("json"), Some(OutputFormat::JSON));
    assert_eq!(OutputFormat::from_str("jsonl"), Some(OutputFormat::JSONL));
    assert_eq!(OutputFormat::from_str("csv"), Some(OutputFormat::CSV));
    assert_eq!(OutputFormat::from_str("xml"), None);
    assert_eq!(OutputFormat::from_str("JSON"), None);
}
