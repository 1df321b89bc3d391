use rew::cli::parse_single_byte_char;

#[test]
fn parses_single_byte_char() {
    assert_eq!(parse_single_byte_char("a"), Ok(b'a'));
    assert_eq!(
        parse_single_byte_char("á"),
        Err("multi-byte characters are not supported",)
    );
    assert_eq!(
        parse_single_byte_char("aa"),
        Err("value must be a single character")
    );
}
