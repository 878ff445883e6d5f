use sighunter::signature::Signature;

fn compile(text: &str) -> Signature {
    match Signature::new(text) {
        Ok(sig) => sig,
        Err(e) => panic!("pattern {:?} rejected at token {:?}", text, e.token),
    }
}

#[test]
fn wildcard_pattern_returns_lowest_offset() {
    let sig = compile("4F ?? ?? 1A");
    let subject = [0x00, 0x4F, 0x01, 0x02, 0x1A, 0x4F, 0x03, 0x04, 0x1A];
    assert_eq!(sig.find(&subject), Some(1));
}

#[test]
fn malformed_token_is_reported() {
    let err = Signature::new("4F ZZ").err().expect("ZZ is not a hex byte");
    assert_eq!(err.token, "ZZ");
}

#[test]
fn search_in_empty_subject_is_absent() {
    let sig = compile("4F");
    assert_eq!(sig.find(&[]), None);
}

#[test]
fn compile_is_deterministic() {
    let a = compile("48 8b ?? ? 05");
    let b = compile("48 8b ?? ? 05");
    assert_eq!(a.pattern(), b.pattern());
    assert_eq!(a.mask(), b.mask());
}

#[test]
fn compile_reads_hex_and_wildcards() {
    let sig = compile("48 8b ?? ? 05 fF");
    assert_eq!(sig.pattern(), &[0x48, 0x8B, 0x00, 0x00, 0x05, 0xFF][..]);
    assert_eq!(sig.mask(), &[true, true, false, false, true, true][..]);
    assert_eq!(sig.len(), 6);
}

#[test]
fn compile_splits_on_any_whitespace() {
    let sig = compile("  4F\t\n1A\u{a0}?? ");
    assert_eq!(sig.pattern(), &[0x4F, 0x1A, 0x00][..]);
    assert_eq!(sig.mask(), &[true, true, false][..]);
}

#[test]
fn compile_rejects_one_digit_token() {
    let err = Signature::new("4F F").err().expect("one digit is not a byte");
    assert_eq!(err.token, "F");
}

#[test]
fn compile_rejects_three_digit_token() {
    let err = Signature::new("4F 123").err().expect("three digits are not a byte");
    assert_eq!(err.token, "123");
}

#[test]
fn compile_rejects_triple_question_mark() {
    let err = Signature::new("???").err().expect("??? is no wildcard");
    assert_eq!(err.token, "???");
}

#[test]
fn compile_reports_first_bad_token() {
    let err = Signature::new("GG 4F HH").err().expect("GG is not a hex byte");
    assert_eq!(err.token, "GG");
}

#[test]
fn compile_reports_last_token() {
    let err = Signature::new("4F +1").err().expect("a sign is not a hex digit");
    assert_eq!(err.token, "+1");
}

#[test]
fn empty_text_gives_empty_signature() {
    let sig = compile("");
    assert_eq!(sig.len(), 0);
    assert_eq!(sig.find(&[0xAA, 0xBB]), Some(0));
}

#[test]
fn whitespace_only_text_gives_empty_signature() {
    let sig = compile(" \t ");
    assert_eq!(sig.len(), 0);
    assert_eq!(sig.find(&[]), Some(0));
}

#[test]
fn longer_signature_is_absent() {
    let sig = compile("01 02 03");
    assert_eq!(sig.find(&[0x01, 0x02]), None);
    let wild = compile("?? ?? ??");
    assert_eq!(wild.find(&[0x01, 0x02]), None);
}

#[test]
fn literal_occurrence_found_at_its_position() {
    let sig = compile("DE AD BE EF");
    let subject = [0x00, 0xDE, 0xAD, 0x00, 0xDE, 0xAD, 0xBE, 0xEF, 0x11];
    assert_eq!(sig.find(&subject), Some(4));
}

#[test]
fn embedded_pattern_is_recovered() {
    let sig = compile("90 C3 CC 55");
    let mut subject = vec![0x10u8; 37];
    subject.extend_from_slice(sig.pattern());
    subject.extend_from_slice(&[0x20; 11]);
    assert_eq!(sig.find(&subject), Some(37));
}

#[test]
fn wildcards_keep_matches() {
    let subject = [0x05, 0x4F, 0x77, 0x1A, 0x4F, 0x01, 0x1A];
    let exact = compile("4F 01 1A");
    let relaxed = compile("4F ?? 1A");
    assert_eq!(exact.find(&subject), Some(4));
    assert_eq!(relaxed.find(&subject), Some(1));
    assert_eq!(relaxed.sig_match(&subject, 4), true);
}

#[test]
fn repeated_search_gives_lowest_offset() {
    let sig = compile("AB ?? AB");
    let mut subject = vec![0u8; 100_000];
    for k in (500..subject.len() - 3).step_by(997) {
        subject[k] = 0xAB;
        subject[k + 2] = 0xAB;
    }
    for _ in 0..20 {
        assert_eq!(sig.find(&subject), Some(500));
    }
}

#[test]
fn match_at_last_offset() {
    let sig = compile("01 02");
    assert_eq!(sig.find(&[0x00, 0x00, 0x01, 0x02]), Some(2));
    assert_eq!(sig.find(&[0x01, 0x02]), Some(0));
}

#[test]
fn no_match_anywhere_is_absent() {
    let sig = compile("01 02");
    assert_eq!(sig.find(&[0x02, 0x01, 0x03, 0x01]), None);
}

#[test]
fn sig_match_checks_bounds_and_bytes() {
    let sig = compile("4F ?? 1A");
    let subject = [0x4F, 0x99, 0x1A, 0x4F];
    assert!(sig.sig_match(&subject, 0));
    assert!(!sig.sig_match(&subject, 1));
    assert!(!sig.sig_match(&subject, 3));
    assert!(!sig.sig_match(&subject, 9));
}
