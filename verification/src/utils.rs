//! Lexical primitives: small helpers and the bounds-checked cursor that the
//! grammar driver composes. Each primitive returns an `Option` so that the
//! driver can propagate the first mismatch upward and never panics or reads
//! out of bounds.

use vstd::prelude::*;

use crate::grammar::{is_digit, is_ws, parse_num, parse_num_from, parse_sep, skip_ws};

verus! {

/// Helper method that returns None if test is true
#[inline]
#[must_use]
pub fn fail_if(test: bool) -> (r: Option<()>)
    ensures
        r == (if test {
            None::<()>
        } else {
            Some(())
        }),
{
    if test {
        None
    } else {
        Some(())
    }
}

/// Whether `c` is horizontal whitespace (space or tab).
#[inline]
pub fn is_whitespace(c: u8) -> (r: bool)
    ensures
        r == is_ws(c),
{
    c == 9 || c == 32
}

/// The numeric value of the ASCII digit `c`.
#[inline]
fn into_digit(c: u8) -> (r: u64)
    requires
        is_digit(c),
    ensures
        r == (c - 48) as u64,
{
    (c - 48) as u64
}

/// A position-tracking cursor over a borrowed byte sequence. Its one piece of
/// state is the read position, which never exceeds the buffer's length.
pub(crate) struct Scanner<'a> {
    buf: &'a [u8],
    pos: usize,
}

impl<'a> Scanner<'a> {
    /// The bytes the cursor reads.
    pub closed spec fn bytes(self) -> Seq<u8> {
        self.buf@
    }

    /// The current read position.
    pub closed spec fn at(self) -> int {
        self.pos as int
    }

    /// The read position never runs past the end of the buffer.
    pub open spec fn wf(self) -> bool {
        0 <= self.at() <= self.bytes().len()
    }

    /// A cursor over `buf` starting at `pos`.
    pub fn new(buf: &'a [u8], pos: usize) -> (r: Scanner<'a>)
        requires
            pos <= buf@.len(),
        ensures
            r.wf(),
            r.bytes() == buf@,
            r.at() == pos,
    {
        Scanner { buf, pos }
    }

    /// The next unread byte, without consuming it; `None` at end of input.
    pub fn peek(&self) -> (r: Option<u8>)
        requires
            self.wf(),
        ensures
            r == (if self.at() < self.bytes().len() {
                Some(self.bytes()[self.at()])
            } else {
                None::<u8>
            }),
    {
        if self.pos < self.buf.len() {
            Some(self.buf[self.pos])
        } else {
            None
        }
    }

    /// Consumes and returns the next byte; `None` at end of input.
    pub fn advance(&mut self) -> (r: Option<u8>)
        requires
            old(self).wf(),
        ensures
            final(self).wf(),
            final(self).bytes() == old(self).bytes(),
            old(self).at() < old(self).bytes().len() ==> r == Some(
                old(self).bytes()[old(self).at()],
            ) && final(self).at() == old(self).at() + 1,
            old(self).at() >= old(self).bytes().len() ==> r is None && final(self).at() == old(
                self,
            ).at(),
    {
        if self.pos < self.buf.len() {
            let c = self.buf[self.pos];
            self.pos = self.pos + 1;
            Some(c)
        } else {
            None
        }
    }

    /// Advances past a maximal run of spaces and tabs, then returns the next
    /// byte without consuming it, or `None` if only whitespace remained.
    pub fn skip_spaces(&mut self) -> (r: Option<u8>)
        requires
            old(self).wf(),
        ensures
            final(self).wf(),
            final(self).bytes() == old(self).bytes(),
            final(self).at() == skip_ws(old(self).bytes(), old(self).at()),
            r == (if final(self).at() < final(self).bytes().len() {
                Some(final(self).bytes()[final(self).at()])
            } else {
                None::<u8>
            }),
    {
        loop
            invariant
                self.wf(),
                self.bytes() == old(self).bytes(),
                skip_ws(self.bytes(), self.at()) == skip_ws(old(self).bytes(), old(self).at()),
            decreases self.bytes().len() - self.at(),
        {
            match self.peek() {
                None => {
                    return None;
                },
                Some(v) => {
                    if is_whitespace(v) {
                        self.advance();
                    } else {
                        return Some(v);
                    }
                },
            }
        }
    }

    /// Skip spaces, and ensure there is a given separator. Returns next
    /// non-space value.
    pub fn parse_separator(&mut self, separator: u8) -> (r: Option<u8>)
        requires
            old(self).wf(),
        ensures
            final(self).wf(),
            final(self).bytes() == old(self).bytes(),
            match parse_sep(old(self).bytes(), old(self).at(), separator) {
                Some(j) => final(self).at() == j && r == (if j < old(self).bytes().len() {
                    Some(old(self).bytes()[j])
                } else {
                    None::<u8>
                }),
                None => r is None && final(self).at() == skip_ws(
                    old(self).bytes(),
                    old(self).at(),
                ),
            },
    {
        if self.skip_spaces()? != separator {
            return None;
        }
        self.advance()?;  // consume separator
        self.skip_spaces()
    }

    /// Consume u64 value: one or more decimal digits, greedily, failing on
    /// a leading non-digit and on 64-bit overflow.
    pub fn parse_u64(&mut self) -> (r: Option<u64>)
        requires
            old(self).wf(),
        ensures
            final(self).wf(),
            final(self).bytes() == old(self).bytes(),
            final(self).at() >= old(self).at(),
            match parse_num(old(self).bytes(), old(self).at()) {
                Some(v_j) => r == Some(v_j.0) && final(self).at() == v_j.1,
                None => r is None,
            },
    {
        let first = self.advance();
        let mut res: u64 = match first {
            None => {
                return None;
            },
            Some(c) => {
                if !(48 <= c && c <= 57) {
                    return None;
                }
                into_digit(c)
            },
        };
        loop
            invariant
                self.wf(),
                self.bytes() == old(self).bytes(),
                self.at() >= old(self).at(),
                parse_num(old(self).bytes(), old(self).at()) == parse_num_from(
                    self.bytes(),
                    self.at(),
                    res,
                ),
            decreases self.bytes().len() - self.at(),
        {
            match self.peek() {
                None => {
                    return Some(res);
                },
                Some(v) => {
                    if 48 <= v && v <= 57 {
                        res = match res.checked_mul(10) {
                            Some(m) => match m.checked_add(into_digit(v)) {
                                Some(a) => a,
                                None => {
                                    return None;
                                },
                            },
                            None => {
                                return None;
                            },
                        };
                        self.advance();
                    } else {
                        return Some(res);
                    }
                },
            }
        }
    }
}

} // verus!
