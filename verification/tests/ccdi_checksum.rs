use ax25_node_core::radio::tait::ccdi::checksum::{compute, is_valid};

#[test]
fn golden_vector_ccr_over_sdm() {
    assert_eq!(&compute(b"a130520312345678M01D0E"), b"36");
    assert!(is_valid(b"a130520312345678M01D0E", b"36"));
}

#[test]
fn matches_manual_examples() {
    let cases: &[(&[u8], &[u8])] = &[
        (b"s0D050800TESTHi!", b"DA"),
        (b"q00", b"2F"),
        (b"f0291", b"CE"),
        (b"f03041", b"A2"),
        (b"q045063", b"5D"),
        (b"a130520312345678M01D0E", b"36"),
        (b"a120520612345678GPRMC", b"22"),
        (b"a1B0520612345678GPGGA,87654321", b"55"),
        (b"s0A0512345678", b"13"),
        (b"s0CFF12345678Hi", b"39"),
        (b"f03011", b"A5"),
        (b"f040225", b"6D"),
        (b"f03025", b"A0"),
        (b"f03031", b"A3"),
        (b"f03051", b"A1"),
        (b"f03101", b"A5"),
        (b"f03111", b"A4"),
        (b"f03121", b"A3"),
        (b"f0241", b"D3"),
        (b"f0271", b"D0"),
    ];
    for (body, expected) in cases {
        assert_eq!(&compute(body), expected, "checksum of {:?}", std::str::from_utf8(body));
        assert!(is_valid(body, expected));
    }
}

#[test]
fn rejects_wrong_or_malformed_checksum() {
    assert!(!is_valid(b"q00", b"2E"));
    assert!(!is_valid(b"q00", b"2f"));
    assert!(!is_valid(b"q00", b"2"));
    assert!(!is_valid(b"q00", b"2F0"));
}

#[test]
fn empty_body_is_two_complement_of_zero() {
    assert_eq!(&compute(b""), b"00");
}
