use acvm_server::errors::{CliError, FilesystemError};
use acvm_server::input::{parse_witness_index, read_inputs};

#[test]
fn fail_fast_on_invalid_key() {
    let r = read_inputs("abc = \"0x01\"", "witness.toml");
    assert!(matches!(r, Err(CliError::WitnessIndexError(ref k)) if k == "abc"));
}

#[test]
fn invalid_key_aborts_whole_parse() {
    let r = read_inputs("1 = \"0x01\"\nabc = \"0x02\"\n2 = \"0x03\"", "witness.toml");
    assert!(matches!(r, Err(CliError::WitnessIndexError(ref k)) if k == "abc"));
}

#[test]
fn rejects_non_string_value() {
    let r = read_inputs("1 = 42", "witness.toml");
    assert!(matches!(r, Err(CliError::WitnessValueError(ref k)) if k == "1"));
}

#[test]
fn rejects_malformed_hex_value() {
    let r = read_inputs("1 = \"0xzz\"", "witness.toml");
    assert!(matches!(r, Err(CliError::WitnessValueError(ref k)) if k == "1"));
}

#[test]
fn rejects_unparseable_document() {
    let r = read_inputs("= this is not a key/value document", "witness.toml");
    assert!(matches!(
        r,
        Err(CliError::FilesystemError(FilesystemError::InvalidTomlFile(ref n))) if n == "witness.toml"
    ));
}

#[test]
fn parses_entries_into_witness_map() {
    let w = read_inputs("0 = \"0x05\"\n2 = \"0xff\"", "witness.toml").unwrap();
    assert_eq!(w.len(), 2);
    let v0 = w.get(0).unwrap().as_bytes();
    assert_eq!(v0.len(), 32);
    assert_eq!(v0[31], 0x05);
    assert!(v0[..31].iter().all(|b| *b == 0));
    let v2 = w.get(2).unwrap().as_bytes();
    assert_eq!(v2[31], 0xff);
    assert!(v2[..31].iter().all(|b| *b == 0));
}

#[test]
fn parses_wide_hex_value() {
    let w = read_inputs("7 = \"0x0102\"", "witness.toml").unwrap();
    let v = w.get(7).unwrap().as_bytes();
    assert_eq!(v[30], 0x01);
    assert_eq!(v[31], 0x02);
}

#[test]
fn quoted_key_is_trimmed() {
    let w = read_inputs("\" 3 \" = \"0x01\"", "witness.toml").unwrap();
    assert_eq!(w.len(), 1);
    assert_eq!(w.get(3).unwrap().as_bytes()[31], 0x01);
}

#[test]
fn witness_index_accepts_plain_decimal() {
    assert_eq!(parse_witness_index("0"), Some(0));
    assert_eq!(parse_witness_index("12"), Some(12));
    assert_eq!(parse_witness_index(" 7 "), Some(7));
    assert_eq!(parse_witness_index("+8"), Some(8));
    assert_eq!(parse_witness_index("4294967295"), Some(u32::MAX));
}

#[test]
fn witness_index_trims_unicode_whitespace() {
    assert_eq!(parse_witness_index("\u{A0}7\u{A0}"), Some(7));
    assert_eq!(parse_witness_index("\u{2003}12\u{3000}"), Some(12));
    assert_eq!(parse_witness_index("\u{A0}"), None);
}

#[test]
fn quoted_key_with_unicode_whitespace_is_trimmed() {
    let w = read_inputs("\"\u{A0}5\u{A0}\" = \"0x02\"", "witness.toml").unwrap();
    assert_eq!(w.len(), 1);
    assert_eq!(w.get(5).unwrap().as_bytes()[31], 0x02);
}

#[test]
fn witness_index_rejects_bad_tokens() {
    assert_eq!(parse_witness_index(""), None);
    assert_eq!(parse_witness_index("  "), None);
    assert_eq!(parse_witness_index("+"), None);
    assert_eq!(parse_witness_index("-1"), None);
    assert_eq!(parse_witness_index("1a"), None);
    assert_eq!(parse_witness_index("4294967296"), None);
    assert_eq!(parse_witness_index("99999999999999999999"), None);
}
