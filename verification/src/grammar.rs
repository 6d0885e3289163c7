//! Specification-level model of the `Content-Range` header grammar.
//!
//! The grammar (RFC 7233 section 4.2, with a whitespace relaxation) is
//! defined here as total spec functions over a byte sequence, so that the
//! executable parser can promise, byte for byte, to return exactly what
//! the grammar denotes:
//!
//! ```text
//! Content-Range = "bytes" SP range-spec
//! range-spec    = byte-range-resp / unsatisfied-range
//! byte-range-resp   = first-byte "-" last-byte "/" (complete-length / "*")
//! unsatisfied-range = "*" "/" complete-length
//! first-byte, last-byte, complete-length = 1*DIGIT   ; must fit in 64 bits
//! SP = one or more of space (0x20) or tab (0x09)
//! ```
//!
//! The relaxation: a run of spaces and tabs is allowed at every token
//! boundary, not just the single space the RFC prescribes. No other
//! whitespace is accepted, and a valid header may be followed only by
//! trailing spaces and tabs.

use vstd::prelude::*;

use crate::{ContentRange, ContentRangeBytes, ContentRangeUnbound, ContentRangeUnsatisfied};

verus! {

/// Horizontal whitespace: space or tab, nothing else.
pub open spec fn is_ws(c: u8) -> bool {
    c == 32 || c == 9
}

/// ASCII decimal digit `0`..`9`.
pub open spec fn is_digit(c: u8) -> bool {
    48 <= c && c <= 57
}

/// The ASCII bytes of the literal `bytes`, the only range unit accepted.
pub open spec fn unit_prefix() -> Seq<u8> {
    seq![98u8, 121u8, 116u8, 101u8, 115u8]
}

/// `s` starts with the literal `bytes`, case-sensitively.
pub open spec fn has_unit_prefix(s: Seq<u8>) -> bool {
    s.len() >= 5 && s[0] == 98 && s[1] == 121 && s[2] == 116 && s[3] == 101 && s[4] == 115
}

/// The index of the first byte at or after `i` that is not horizontal
/// whitespace, or `s.len()` when only whitespace remains.
pub open spec fn skip_ws(s: Seq<u8>, i: int) -> int
    recommends
        0 <= i <= s.len(),
    decreases s.len() - i,
{
    if i < s.len() && is_ws(s[i]) {
        skip_ws(s, i + 1)
    } else {
        i
    }
}

/// Greedy decimal accumulation: starting from the value `acc`, folds in the
/// digits found at `i` and onward (`acc = acc * 10 + digit`) until the first
/// non-digit byte, failing if the value would ever exceed `u64::MAX`.
/// On success returns the value and the index of the first byte past the run.
pub open spec fn parse_num_from(s: Seq<u8>, i: int, acc: u64) -> Option<(u64, int)>
    recommends
        0 <= i <= s.len(),
    decreases s.len() - i,
{
    if i < s.len() && is_digit(s[i]) {
        let v = acc * 10 + (s[i] - 48);
        if v <= u64::MAX {
            parse_num_from(s, i + 1, v as u64)
        } else {
            None
        }
    } else {
        Some((acc, i))
    }
}

/// A decimal literal at `i`: at least one digit, value within `u64`.
/// Returns the value and the index of the first byte past the digits.
pub open spec fn parse_num(s: Seq<u8>, i: int) -> Option<(u64, int)> {
    if i < s.len() && is_digit(s[i]) {
        parse_num_from(s, i + 1, (s[i] - 48) as u64)
    } else {
        None
    }
}

/// Optional whitespace, the single byte `sep`, then optional whitespace;
/// on success, the index of the first byte after all of that.
pub open spec fn parse_sep(s: Seq<u8>, i: int, sep: u8) -> Option<int> {
    let j = skip_ws(s, i);
    if j < s.len() && s[j] == sep {
        Some(skip_ws(s, j + 1))
    } else {
        None
    }
}

/// Nothing but horizontal whitespace stands at or after `i`.
pub open spec fn only_ws_remains(s: Seq<u8>, i: int) -> bool {
    skip_ws(s, i) == s.len()
}

/// The unsatisfied-range branch, entered at the index `i` just after the
/// leading `*`: a `/` separator, the complete length, then nothing but
/// trailing whitespace.
pub open spec fn parse_unsatisfied(s: Seq<u8>, i: int) -> Option<ContentRange> {
    match parse_sep(s, i, 47) {
        Some(j) => match parse_num(s, j) {
            Some((complete_length, k)) => if only_ws_remains(s, k) {
                Some(ContentRange::Unsatisfied(ContentRangeUnsatisfied { complete_length }))
            } else {
                None
            },
            None => None,
        },
        None => None,
    }
}

/// The byte-range branch, entered at the index `i` of its first digit:
/// `first-byte "-" last-byte "/"`, then either `*` (length unknown) or the
/// complete length, then nothing but trailing whitespace. Rejects
/// `first_byte > last_byte`, and `last_byte >= complete_length` when the
/// length is given.
pub open spec fn parse_byte_range(s: Seq<u8>, i: int) -> Option<ContentRange> {
    match parse_num(s, i) {
        Some((first_byte, j)) => match parse_sep(s, j, 45) {
            Some(k) => match parse_num(s, k) {
                Some((last_byte, m)) => if first_byte > last_byte {
                    None
                } else {
                    match parse_sep(s, m, 47) {
                        Some(p) => if p < s.len() && s[p] == 42 {
                            if only_ws_remains(s, p + 1) {
                                Some(ContentRange::UnboundBytes(ContentRangeUnbound {
                                    first_byte,
                                    last_byte,
                                }))
                            } else {
                                None
                            }
                        } else {
                            match parse_num(s, p) {
                                Some((complete_length, q)) => if last_byte >= complete_length {
                                    None
                                } else if only_ws_remains(s, q) {
                                    Some(ContentRange::Bytes(ContentRangeBytes {
                                        first_byte,
                                        last_byte,
                                        complete_length,
                                    }))
                                } else {
                                    None
                                },
                                None => None,
                            }
                        },
                        None => None,
                    }
                },
                None => None,
            },
            None => None,
        },
        None => None,
    }
}

/// What a `Content-Range` header value denotes, or `None` when it does not
/// match the grammar: the literal `bytes`, one mandatory whitespace byte,
/// optional further whitespace, then either the unsatisfied-range branch
/// (starting with `*`) or the byte-range branch.
pub open spec fn spec_parse_opt(s: Seq<u8>) -> Option<ContentRange> {
    if s.len() > 5 && has_unit_prefix(s) && is_ws(s[5]) {
        let i = skip_ws(s, 6);
        if i < s.len() && s[i] == 42 {
            parse_unsatisfied(s, i + 1)
        } else {
            parse_byte_range(s, i)
        }
    } else {
        None
    }
}

/// Total meaning of a header value: a parsed range, or `Unknown` for any
/// byte sequence the grammar rejects.
pub open spec fn spec_parse(s: Seq<u8>) -> ContentRange {
    match spec_parse_opt(s) {
        Some(r) => r,
        None => ContentRange::Unknown,
    }
}

} // verus!
