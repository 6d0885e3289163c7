use http_content_range::utils::{fail_if, is_whitespace};
use http_content_range::{
    ContentRange, ContentRangeBytes, ContentRangeUnbound, ContentRangeUnsatisfied,
};

fn bounded(first_byte: u64, last_byte: u64, complete_length: u64) -> ContentRange {
    ContentRange::Bytes(ContentRangeBytes {
        first_byte,
        last_byte,
        complete_length,
    })
}

#[test]
fn round_trip_rendered_headers() {
    let cases = [(0u64, 0u64, 1u64), (42, 69, 420), (0, 9, 20), (7, 7, 8)];
    for (a, b, c) in cases {
        let plain = format!("bytes {a}-{b}/{c}");
        assert_eq!(ContentRange::parse(&plain), bounded(a, b, c), "{plain}");
        let spaced = format!("bytes \t {a} \t- {b}\t/\t {c} \t ");
        assert_eq!(ContentRange::parse(&spaced), bounded(a, b, c), "{spaced}");
    }
}

#[test]
fn ordering_rejected_for_large_values() {
    // first byte above last byte, and last byte at or above the length,
    // near the top of the 64-bit range
    assert_eq!(
        ContentRange::parse("bytes 18446744073709551615-18446744073709551614/18446744073709551615"),
        ContentRange::Unknown
    );
    assert_eq!(
        ContentRange::parse("bytes 0-18446744073709551615/18446744073709551615"),
        ContentRange::Unknown
    );
}

#[test]
fn literal_at_u64_max_is_accepted() {
    assert_eq!(
        ContentRange::parse("bytes 0-9/18446744073709551615"),
        bounded(0, 9, 18446744073709551615)
    );
    assert_eq!(
        ContentRange::parse("bytes 18446744073709551615-18446744073709551615/*"),
        ContentRange::UnboundBytes(ContentRangeUnbound {
            first_byte: 18446744073709551615,
            last_byte: 18446744073709551615,
        })
    );
    assert_eq!(
        ContentRange::parse("bytes */18446744073709551615"),
        ContentRange::Unsatisfied(ContentRangeUnsatisfied {
            complete_length: 18446744073709551615,
        })
    );
}

#[test]
fn literal_above_u64_max_is_rejected() {
    // one above the maximum, in each numeric position
    assert_eq!(
        ContentRange::parse("bytes 18446744073709551616-1/5"),
        ContentRange::Unknown
    );
    assert_eq!(
        ContentRange::parse("bytes 0-18446744073709551616/5"),
        ContentRange::Unknown
    );
    assert_eq!(
        ContentRange::parse("bytes 0-9/18446744073709551616"),
        ContentRange::Unknown
    );
    assert_eq!(
        ContentRange::parse("bytes */18446744073709551616"),
        ContentRange::Unknown
    );
}

#[test]
fn prefix_must_match_exactly() {
    assert_eq!(ContentRange::parse("Bytes 1-2/3"), ContentRange::Unknown);
    assert_eq!(ContentRange::parse("BYTES 1-2/3"), ContentRange::Unknown);
    assert_eq!(ContentRange::parse("bytesx 1-2/3"), ContentRange::Unknown);
    assert_eq!(ContentRange::parse("byte 1-2/3"), ContentRange::Unknown);
    assert_eq!(ContentRange::parse("bytes"), ContentRange::Unknown);
    assert_eq!(ContentRange::parse("bytes\n1-2/3"), ContentRange::Unknown);
}

#[test]
fn trailing_bytes_are_rejected() {
    assert_eq!(ContentRange::parse("bytes 0-9/20 x"), ContentRange::Unknown);
    assert_eq!(
        ContentRange::parse("bytes 0-9/20\t\t4"),
        ContentRange::Unknown
    );
    assert_eq!(
        ContentRange::parse("bytes 0-9/* bytes 0-9/*"),
        ContentRange::Unknown
    );
    // trailing whitespace alone stays fine
    assert_eq!(ContentRange::parse("bytes 0-9/20 \t "), bounded(0, 9, 20));
}

#[test]
fn missing_tokens_are_rejected() {
    assert_eq!(ContentRange::parse("bytes "), ContentRange::Unknown);
    assert_eq!(ContentRange::parse("bytes \t "), ContentRange::Unknown);
    assert_eq!(ContentRange::parse("bytes 1 2/3"), ContentRange::Unknown);
    assert_eq!(ContentRange::parse("bytes 1-2 3"), ContentRange::Unknown);
    assert_eq!(ContentRange::parse("bytes */"), ContentRange::Unknown);
    assert_eq!(ContentRange::parse("bytes *"), ContentRange::Unknown);
    assert_eq!(ContentRange::parse("bytes 0-9"), ContentRange::Unknown);
}

#[test]
fn newline_is_not_whitespace() {
    assert_eq!(ContentRange::parse("bytes\n0-9/20"), ContentRange::Unknown);
    assert_eq!(ContentRange::parse("bytes 0-9/20\n"), ContentRange::Unknown);
    assert_eq!(ContentRange::parse("bytes 0\r-9/20"), ContentRange::Unknown);
}

#[test]
fn parse_bytes_matches_parse() {
    assert_eq!(
        ContentRange::parse_bytes(b"bytes 42-69/420"),
        bounded(42, 69, 420)
    );
    assert_eq!(
        ContentRange::parse_bytes(b"bytes */7"),
        ContentRange::Unsatisfied(ContentRangeUnsatisfied { complete_length: 7 })
    );
    assert_eq!(ContentRange::parse_bytes(b""), ContentRange::Unknown);
    assert_eq!(
        ContentRange::parse_bytes(b"bytes \xffx"),
        ContentRange::Unknown
    );
}

#[test]
fn non_ascii_input_is_rejected() {
    assert_eq!(ContentRange::parse("bytes \u{a0}0-9/20"), ContentRange::Unknown);
    assert_eq!(ContentRange::parse("bytés 0-9/20"), ContentRange::Unknown);
}

#[test]
fn fail_if_signals_failure_exactly_on_true() {
    assert_eq!(fail_if(true), None);
    assert_eq!(fail_if(false), Some(()));
}

#[test]
fn is_whitespace_accepts_space_and_tab_only() {
    assert!(is_whitespace(b' '));
    assert!(is_whitespace(b'\t'));
    assert!(!is_whitespace(b'\n'));
    assert!(!is_whitespace(b'\r'));
    assert!(!is_whitespace(b'0'));
    assert!(!is_whitespace(b'*'));
}
