//! Parser for the HTTP `Content-Range` response header value
//! (RFC 7233 section 4.2).
//!
//! The parser distinguishes the three valid response shapes — a bounded byte
//! range, a byte range with unknown total length, and an unsatisfied range —
//! from anything malformed, which uniformly yields [`ContentRange::Unknown`].
//! It is a little more lenient than the RFC: any run of spaces and tabs is
//! accepted at every token boundary.
//!
//! Every parsing function promises to return exactly what the grammar in
//! [`grammar`] denotes for its input, and [`laws`] proves the properties a
//! caller may lean on: round trips, rejection of misordered or overflowing
//! ranges, prefix strictness, and rejection of trailing data.

use vstd::prelude::*;

pub mod grammar;
pub mod laws;
pub mod utils;

use vstd::string::StringSliceAdditionalSpecFns;

use crate::grammar::{spec_parse, spec_parse_opt};
use crate::utils::{fail_if, is_whitespace, Scanner};

verus! {

/// HTTP Content-Range response header representation.
#[derive(Debug, Clone, Copy, Eq, PartialEq)]
pub enum ContentRange {
    /// Regular bytes range response with status 206
    Bytes(ContentRangeBytes),
    /// Regular bytes range response with status 206
    UnboundBytes(ContentRangeUnbound),
    /// Server response with status 416
    Unsatisfied(ContentRangeUnsatisfied),
    /// Header cannot be parsed. This includes non-standard response with status 206
    Unknown,
}

/// A satisfiable byte range with the total resource length known.
///
/// Every value produced by parsing satisfies
/// `first_byte <= last_byte < complete_length`.
#[derive(Debug, Clone, Copy, Eq, PartialEq)]
pub struct ContentRangeBytes {
    pub first_byte: u64,
    pub last_byte: u64,
    pub complete_length: u64,
}

/// A satisfiable byte range with the total resource length unknown (`*`).
///
/// Every value produced by parsing satisfies `first_byte <= last_byte`.
#[derive(Debug, Clone, Copy, Eq, PartialEq)]
pub struct ContentRangeUnbound {
    pub first_byte: u64,
    pub last_byte: u64,
}

/// An unsatisfied range request (status 416); only the total length is known.
#[derive(Debug, Clone, Copy, Eq, PartialEq)]
pub struct ContentRangeUnsatisfied {
    pub complete_length: u64,
}

impl ContentRange {
    /// Parses Content-Range HTTP header string as per
    /// [RFC 7233](https://httpwg.org/specs/rfc7233.html#header.content-range).
    ///
    /// `header` is the HTTP Content-Range header (e.g. `bytes 0-9/30`).
    ///
    /// This parser is a bit more lenient than the official RFC, it allows
    /// spaces and tabs between everything.
    /// See <https://httpwg.org/specs/rfc7233.html#rfc.section.4.2>
    #[must_use]
    pub fn parse(header: &str) -> (r: ContentRange)
        ensures
            r == spec_parse(header.spec_bytes()),
    {
        Self::parse_bytes(header.as_bytes())
    }

    /// Same as [`parse`](Self::parse) but parses directly from the byte array
    #[must_use]
    pub fn parse_bytes(header: &[u8]) -> (r: ContentRange)
        ensures
            r == spec_parse(header@),
    {
        match Self::parse_opt(header) {
            Some(r) => r,
            None => ContentRange::Unknown,
        }
    }

    /// Internal implementation of parsing: the grammar driver. Sequences the
    /// scanner primitives over the input and returns `None` on the first
    /// mismatch.
    fn parse_opt(header: &[u8]) -> (r: Option<ContentRange>)
        ensures
            r == spec_parse_opt(header@),
    {
        // must start with the literal `bytes`
        if !(header.len() >= 5 && header[0] == 98 && header[1] == 121 && header[2] == 116
            && header[3] == 101 && header[4] == 115) {
            return None;
        }

        let mut scanner = Scanner::new(header, 5);

        // must continue with a whitespace byte
        fail_if(!is_whitespace(scanner.advance()?))?;
        let res = if scanner.skip_spaces()? == 42 {
            // Unsatisfied range
            scanner.advance()?;  // consume '*'
            scanner.parse_separator(47)?;
            ContentRange::Unsatisfied(ContentRangeUnsatisfied {
                complete_length: scanner.parse_u64()?,
            })
        } else {
            // byte range
            let first_byte = scanner.parse_u64()?;
            scanner.parse_separator(45)?;
            let last_byte = scanner.parse_u64()?;
            fail_if(first_byte > last_byte)?;
            if scanner.parse_separator(47)? == 42 {
                // unbound byte range, consume '*'
                scanner.advance()?;
                ContentRange::UnboundBytes(ContentRangeUnbound { first_byte, last_byte })
            } else {
                let complete_length = scanner.parse_u64()?;
                fail_if(last_byte >= complete_length)?;
                ContentRange::Bytes(ContentRangeBytes { first_byte, last_byte, complete_length })
            }
        };

        // verify there is nothing left
        match scanner.skip_spaces() {
            None => Some(res),
            Some(_) => None,
        }
    }
}

} // verus!
