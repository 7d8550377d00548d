use receipt_merkle::errors::VerifyError;
use receipt_merkle::parser::parse_proof;

fn text(s: &str) -> Vec<u8> {
    s.as_bytes().to_vec()
}

#[test]
fn parses_one_plain_hash() {
    let s = "aa".repeat(32);
    let p = parse_proof(&text(&s)).unwrap();
    assert_eq!(p.len(), 1);
    assert_eq!(p.siblings[0].to_vec(), vec![0xaa; 32]);
}

#[test]
fn parses_prefixed_and_mixed_case_hashes() {
    let s = format!("0x{}", "Ab".repeat(32));
    let p = parse_proof(&text(&s)).unwrap();
    assert_eq!(p.len(), 1);
    assert_eq!(p.siblings[0].to_vec(), vec![0xab; 32]);

    let s = format!("0X{}", "FF".repeat(32));
    let p = parse_proof(&text(&s)).unwrap();
    assert_eq!(p.siblings[0].to_vec(), vec![0xff; 32]);
}

#[test]
fn parses_comma_separated_list_with_blanks() {
    let s = format!(
        " {} , 0x{} ,\t{}",
        "11".repeat(32),
        "22".repeat(32),
        "33".repeat(32)
    );
    let p = parse_proof(&text(&s)).unwrap();
    assert_eq!(p.len(), 3);
    assert_eq!(p.siblings[0].to_vec(), vec![0x11; 32]);
    assert_eq!(p.siblings[1].to_vec(), vec![0x22; 32]);
    assert_eq!(p.siblings[2].to_vec(), vec![0x33; 32]);
}

#[test]
fn preserves_token_order() {
    let s = format!("{},{}", "01".repeat(32), "02".repeat(32));
    let p = parse_proof(&text(&s)).unwrap();
    assert_eq!(p.siblings[0].to_vec(), vec![0x01; 32]);
    assert_eq!(p.siblings[1].to_vec(), vec![0x02; 32]);
}

#[test]
fn scenario_token_zz_is_malformed() {
    let r = parse_proof(&text("zz"));
    assert_eq!(r.unwrap_err(), VerifyError::MalformedInput { token_index: 0 });
}

#[test]
fn empty_text_is_malformed() {
    let r = parse_proof(&text(""));
    assert_eq!(r.unwrap_err(), VerifyError::MalformedInput { token_index: 0 });
}

#[test]
fn wrong_length_token_is_malformed() {
    // 63 digits: one short of a 32-byte hash.
    let r = parse_proof(&text(&"a".repeat(63)));
    assert_eq!(r.unwrap_err(), VerifyError::MalformedInput { token_index: 0 });
    // 65 digits: one over.
    let r = parse_proof(&text(&"a".repeat(65)));
    assert_eq!(r.unwrap_err(), VerifyError::MalformedInput { token_index: 0 });
}

#[test]
fn invalid_digit_is_malformed() {
    let mut s = "a".repeat(63);
    s.push('g');
    let r = parse_proof(&text(&s));
    assert_eq!(r.unwrap_err(), VerifyError::MalformedInput { token_index: 0 });
}

#[test]
fn reports_first_offending_token() {
    let s = format!("{},zz,zz", "aa".repeat(32));
    let r = parse_proof(&text(&s));
    assert_eq!(r.unwrap_err(), VerifyError::MalformedInput { token_index: 1 });
}

#[test]
fn trailing_comma_means_empty_last_token() {
    let s = format!("{},", "aa".repeat(32));
    let r = parse_proof(&text(&s));
    assert_eq!(r.unwrap_err(), VerifyError::MalformedInput { token_index: 1 });
}
