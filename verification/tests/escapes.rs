use puppetfile::Puppetfile;

fn forge_of(text: &str) -> String {
    Puppetfile::parse(text).unwrap().forge
}

#[test]
fn simple_escapes_decode() {
    assert_eq!("a\nb", forge_of(r#"forge "a\nb""#));
    assert_eq!("a\rb", forge_of(r#"forge "a\rb""#));
    assert_eq!("a\tb", forge_of(r#"forge "a\tb""#));
}

#[test]
fn other_simple_escapes_stand_for_themselves() {
    assert_eq!("a'b", forge_of(r#"forge "a\'b""#));
    assert_eq!("a\"b", forge_of(r#"forge 'a\"b'"#));
    assert_eq!("a\\b", forge_of(r#"forge "a\\b""#));
    assert_eq!("azb", forge_of(r#"forge "a\zb""#));
}

#[test]
fn zero_escape_decodes_to_nul() {
    assert_eq!("a\0b", forge_of(r#"forge "a\0b""#));
}

#[test]
fn hex_escape_decodes() {
    assert_eq!("A", forge_of(r#"forge '\x41'"#));
    assert_eq!("\u{ff}", forge_of(r#"forge '\xff'"#));
}

#[test]
fn unicode_escape_decodes() {
    assert_eq!("A", forge_of(r#"forge '\u0041'"#));
    assert_eq!("\u{2603}", forge_of(r#"forge '\u2603'"#));
}

#[test]
fn line_continuation_decodes_to_newline() {
    assert_eq!("a\nb", forge_of("forge 'a\\\nb'"));
    assert_eq!("a\nb", forge_of("forge 'a\\\r\nb'"));
}

#[test]
fn malformed_escapes_are_errors() {
    assert!(Puppetfile::parse(r#"forge "a\x4""#).is_err());
    assert!(Puppetfile::parse(r#"forge "a\xg1""#).is_err());
    assert!(Puppetfile::parse(r#"forge "a\u041""#).is_err());
    assert!(Puppetfile::parse(r#"forge "a\7b""#).is_err());
    assert!(Puppetfile::parse(r#"forge "a\01b""#).is_err());
}

#[test]
fn surrogate_escape_is_an_error() {
    assert!(Puppetfile::parse(r#"forge "a\ud800b""#).is_err());
}

#[test]
fn bare_line_terminator_in_string_is_an_error() {
    assert!(Puppetfile::parse("forge 'a\nb'").is_err());
}

#[test]
fn both_quote_kinds_parse() {
    assert_eq!("f", forge_of("forge \"f\""));
    assert_eq!("f", forge_of("forge 'f'"));
}
