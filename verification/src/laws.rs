//! Properties of the grammar, stated and proved at the specification level.
//!
//! The first half characterises the token-level spec functions of
//! [`crate::grammar`]: where a whitespace skip lands, and what a maximal
//! digit run parses to, including the overflow cut-off. The second half
//! builds on that to pin down the meaning of whole headers assembled from
//! their tokens, and states the laws a caller may rely on: the round trip
//! from a bounded range back to itself under arbitrary whitespace, the
//! rejection of misordered ranges, of overflowing literals, of wrong
//! prefixes and of trailing data.

use vstd::prelude::*;

use crate::grammar::{
    has_unit_prefix, is_digit, is_ws, only_ws_remains, parse_num, parse_num_from, parse_sep,
    skip_ws, spec_parse, unit_prefix,
};
use crate::{ContentRange, ContentRangeBytes, ContentRangeUnbound, ContentRangeUnsatisfied};

verus! {

/// Every byte of `w` is horizontal whitespace.
pub open spec fn all_ws(w: Seq<u8>) -> bool {
    forall|k: int| 0 <= k < w.len() ==> is_ws(w[k])
}

/// Every byte of `d` is an ASCII decimal digit.
pub open spec fn all_digits(d: Seq<u8>) -> bool {
    forall|k: int| 0 <= k < d.len() ==> is_digit(d[k])
}

/// The numeric value of one ASCII digit.
pub open spec fn digit_val(c: u8) -> nat {
    (c - 48) as nat
}

/// The numeric value of a string of decimal digits, most significant first.
pub open spec fn digits_val(d: Seq<u8>) -> nat
    decreases d.len(),
{
    if d.len() == 0 {
        0
    } else {
        digits_val(d.drop_last()) * 10 + digit_val(d.last())
    }
}

/// The `n`-th power of ten.
pub open spec fn pow10(n: nat) -> nat
    decreases n,
{
    if n == 0 {
        1
    } else {
        10 * pow10((n - 1) as nat)
    }
}

proof fn lemma_pow10_pos(n: nat)
    ensures
        pow10(n) >= 1,
    decreases n,
{
    if n > 0 {
        lemma_pow10_pos((n - 1) as nat);
    }
}

/// A whitespace skip started inside a whitespace run lands on the first
/// non-whitespace byte after it (or at the end of the input).
proof fn lemma_skip_ws_at(s: Seq<u8>, i: int, j: int)
    requires
        0 <= i <= j <= s.len(),
        forall|k: int| i <= k < j ==> is_ws(s[k]),
        j == s.len() || !is_ws(s[j]),
    ensures
        skip_ws(s, i) == j,
    decreases j - i,
{
    if i < j {
        lemma_skip_ws_at(s, i + 1, j);
    }
}

/// Where a whitespace skip lands: no earlier than it started, within the
/// input, with nothing but whitespace behind it and none ahead of it.
proof fn lemma_skip_ws_bounds(s: Seq<u8>, i: int)
    requires
        0 <= i <= s.len(),
    ensures
        i <= skip_ws(s, i) <= s.len(),
        forall|k: int| i <= k < skip_ws(s, i) ==> is_ws(s[k]),
        skip_ws(s, i) == s.len() || !is_ws(s[skip_ws(s, i)]),
    decreases s.len() - i,
{
    if i < s.len() && is_ws(s[i]) {
        lemma_skip_ws_bounds(s, i + 1);
    }
}

/// The value of a digit string read most-significant-digit first: the head
/// digit weighs one power of ten for each digit after it.
proof fn lemma_digits_val_head(d: Seq<u8>)
    requires
        d.len() > 0,
    ensures
        digits_val(d) == digit_val(d[0]) * pow10((d.len() - 1) as nat) + digits_val(
            d.subrange(1, d.len() as int),
        ),
    decreases d.len(),
{
    let tail = d.subrange(1, d.len() as int);
    if d.len() == 1 {
        assert(d.drop_last() =~= Seq::<u8>::empty());
        assert(tail =~= Seq::<u8>::empty());
        assert(digits_val(Seq::<u8>::empty()) == 0);
        assert(digit_val(d[0]) * 1 == digit_val(d[0]));
    } else {
        let head = d.drop_last();
        lemma_digits_val_head(head);
        assert(head.subrange(1, head.len() as int) =~= tail.drop_last());
        assert(head[0] == d[0]);
        assert(tail.last() == d.last());
        let p: nat = pow10((d.len() - 2) as nat);
        let h: nat = digit_val(d[0]);
        let m: nat = digits_val(tail.drop_last());
        // digits_val(head) == h * p + m, by induction
        assert(digits_val(d) == (h * p + m) * 10 + digit_val(d.last()));
        assert((h * p + m) * 10 == h * (10 * p) + m * 10) by (nonlinear_arith);
        assert(pow10((d.len() - 1) as nat) == 10 * p);
        assert(digits_val(tail) == m * 10 + digit_val(tail.last()));
    }
}

/// What greedy accumulation yields over a maximal digit run `[i, j)`: the
/// accumulator shifted past the run plus the run's own value — or a failure
/// exactly when that total exceeds `u64::MAX`.
proof fn lemma_parse_num_from(s: Seq<u8>, i: int, j: int, acc: u64)
    requires
        0 <= i <= j <= s.len(),
        forall|k: int| i <= k < j ==> is_digit(s[k]),
        j == s.len() || !is_digit(s[j]),
    ensures
        ({
            let total = acc * pow10((j - i) as nat) + digits_val(s.subrange(i, j));
            parse_num_from(s, i, acc) == (if total <= u64::MAX {
                Some((total as u64, j))
            } else {
                None::<(u64, int)>
            })
        }),
    decreases j - i,
{
    let run = s.subrange(i, j);
    let total: int = acc * pow10((j - i) as nat) + digits_val(run);
    if i == j {
        assert(run =~= Seq::<u8>::empty());
        assert(digits_val(run) == 0);
        assert(acc * 1 == acc);
    } else {
        let d: nat = digit_val(s[i]);
        let v: int = acc * 10 + (s[i] - 48);
        let p: nat = pow10((j - i - 1) as nat);
        lemma_digits_val_head(run);
        assert(run.subrange(1, run.len() as int) =~= s.subrange(i + 1, j));
        assert(total == acc * (10 * p) + (d * p + digits_val(s.subrange(i + 1, j))));
        assert(acc * (10 * p) + d * p == (acc * 10 + d) * p) by (nonlinear_arith);
        assert(total == v * p + digits_val(s.subrange(i + 1, j)));
        lemma_pow10_pos((j - i - 1) as nat);
        if v <= u64::MAX {
            lemma_parse_num_from(s, i + 1, j, v as u64);
        } else {
            // an overflowing prefix keeps the whole run overflowing
            assert(v * p >= v * 1) by (nonlinear_arith)
                requires
                    p >= 1,
                    v >= 0,
            ;
            assert(total > u64::MAX);
        }
    }
}

/// The overflow boundary for one numeric literal: a maximal digit run
/// `[i, j)` parses exactly when its value fits in 64 bits, and then to
/// exactly that value and the index just past the run.
pub proof fn lemma_parse_num_run(s: Seq<u8>, i: int, j: int)
    requires
        0 <= i < j <= s.len(),
        forall|k: int| i <= k < j ==> is_digit(s[k]),
        j == s.len() || !is_digit(s[j]),
    ensures
        ({
            let v = digits_val(s.subrange(i, j));
            parse_num(s, i) == (if v <= u64::MAX {
                Some((v as u64, j))
            } else {
                None::<(u64, int)>
            })
        }),
{
    let run = s.subrange(i, j);
    lemma_digits_val_head(run);
    assert(run.subrange(1, run.len() as int) =~= s.subrange(i + 1, j));
    lemma_parse_num_from(s, i + 1, j, (s[i] - 48) as u64);
}

/// Whitespace alone remains at `i` exactly when the suffix standing there,
/// `rest`, is all whitespace.
proof fn lemma_only_ws_tail(s: Seq<u8>, i: int, rest: Seq<u8>)
    requires
        0 <= i <= s.len(),
        s.len() == i + rest.len(),
        forall|k: int| 0 <= k < rest.len() ==> s[i + k] == rest[k],
    ensures
        only_ws_remains(s, i) <==> all_ws(rest),
{
    if all_ws(rest) {
        assert forall|k: int| i <= k < s.len() implies is_ws(s[k]) by {
            assert(s[i + (k - i)] == rest[k - i]);
        };
        lemma_skip_ws_at(s, i, s.len() as int);
    } else {
        lemma_skip_ws_bounds(s, i);
        if skip_ws(s, i) == s.len() {
            assert forall|k: int| 0 <= k < rest.len() implies is_ws(rest[k]) by {
                assert(s[i + k] == rest[k]);
            };
        }
    }
}

/// The header shape `bytes {da}-{db}/{dc}`, with the whitespace runs
/// `w1`..`w5` standing at the token boundaries and `rest` after the last
/// digit.
pub open spec fn bounded_header(
    w1: Seq<u8>,
    da: Seq<u8>,
    w2: Seq<u8>,
    w3: Seq<u8>,
    db: Seq<u8>,
    w4: Seq<u8>,
    w5: Seq<u8>,
    dc: Seq<u8>,
    rest: Seq<u8>,
) -> Seq<u8> {
    unit_prefix() + w1 + da + w2 + seq![45u8] + w3 + db + w4 + seq![47u8] + w5 + dc + rest
}

/// The header shape `bytes {da}-{db}/*` with whitespace at the boundaries
/// and `rest` after the `*`.
pub open spec fn unbound_header(
    w1: Seq<u8>,
    da: Seq<u8>,
    w2: Seq<u8>,
    w3: Seq<u8>,
    db: Seq<u8>,
    w4: Seq<u8>,
    w5: Seq<u8>,
    rest: Seq<u8>,
) -> Seq<u8> {
    unit_prefix() + w1 + da + w2 + seq![45u8] + w3 + db + w4 + seq![47u8] + w5 + seq![42u8] + rest
}

/// The header shape `bytes */{dc}` with whitespace at the boundaries and
/// `rest` after the last digit.
pub open spec fn unsatisfied_header(
    w1: Seq<u8>,
    w2: Seq<u8>,
    w3: Seq<u8>,
    dc: Seq<u8>,
    rest: Seq<u8>,
) -> Seq<u8> {
    unit_prefix() + w1 + seq![42u8] + w2 + seq![47u8] + w3 + dc + rest
}

/// What an assembled `bytes */{dc}` header means: the parsed unsatisfied
/// range when nothing but whitespace trails it, and a parse failure
/// otherwise.
pub proof fn lemma_parse_unsatisfied_header(
    w1: Seq<u8>,
    w2: Seq<u8>,
    w3: Seq<u8>,
    dc: Seq<u8>,
    rest: Seq<u8>,
    c: u64,
)
    requires
        all_ws(w1),
        w1.len() > 0,
        all_ws(w2),
        all_ws(w3),
        all_digits(dc),
        dc.len() > 0,
        digits_val(dc) == c,
        rest.len() == 0 || !is_digit(rest[0]),
    ensures
        spec_parse(unsatisfied_header(w1, w2, w3, dc, rest)) == (if all_ws(rest) {
            ContentRange::Unsatisfied(ContentRangeUnsatisfied { complete_length: c })
        } else {
            ContentRange::Unknown
        }),
{
    let s = unsatisfied_header(w1, w2, w3, dc, rest);
    let n1: int = 5 + w1.len() as int;  // the '*'
    let n2: int = n1 + 1;  // w2 starts
    let n3: int = n2 + w2.len() as int;  // the '/'
    let n4: int = n3 + 1;  // w3 starts
    let n5: int = n4 + w3.len() as int;  // dc starts
    let n6: int = n5 + dc.len() as int;  // rest starts
    assert(s.len() == n6 + rest.len());
    assert(forall|k: int| 0 <= k < 5 ==> s[k] == unit_prefix()[k]);
    assert(forall|k: int| 0 <= k < w1.len() ==> s[5 + k] == w1[k]);
    assert(s[n1] == 42);
    assert(forall|k: int| 0 <= k < w2.len() ==> s[n2 + k] == w2[k]);
    assert(s[n3] == 47);
    assert(forall|k: int| 0 <= k < w3.len() ==> s[n4 + k] == w3[k]);
    assert(forall|k: int| 0 <= k < dc.len() ==> s[n5 + k] == dc[k]);
    assert(forall|k: int| 0 <= k < rest.len() ==> s[n6 + k] == rest[k]);

    // the prefix, the mandatory whitespace, and the skip to the '*'
    assert(s[5] == w1[0]);
    lemma_skip_ws_at(s, 6, n1);
    // the '/' separator between its whitespace runs
    lemma_skip_ws_at(s, n2, n3);
    lemma_skip_ws_at(s, n4, n5);
    assert(parse_sep(s, n2, 47) == Some(n5));
    // the complete length
    assert(s.subrange(n5, n6) =~= dc);
    lemma_parse_num_run(s, n5, n6);
    assert(parse_num(s, n5) == Some((c, n6)));
    // the trailing bytes decide
    lemma_only_ws_tail(s, n6, rest);
}

/// What an assembled `bytes {da}-{db}/{dc}` header means: the parsed
/// bounded range when the range is well ordered, fits under the complete
/// length, and nothing but whitespace trails it — and a parse failure in
/// every other case.
#[verifier::rlimit(60)]
pub proof fn lemma_parse_bounded_header(
    w1: Seq<u8>,
    da: Seq<u8>,
    w2: Seq<u8>,
    w3: Seq<u8>,
    db: Seq<u8>,
    w4: Seq<u8>,
    w5: Seq<u8>,
    dc: Seq<u8>,
    rest: Seq<u8>,
    a: u64,
    b: u64,
    c: u64,
)
    requires
        all_ws(w1),
        w1.len() > 0,
        all_ws(w2),
        all_ws(w3),
        all_ws(w4),
        all_ws(w5),
        all_digits(da),
        da.len() > 0,
        digits_val(da) == a,
        all_digits(db),
        db.len() > 0,
        digits_val(db) == b,
        all_digits(dc),
        dc.len() > 0,
        digits_val(dc) == c,
        rest.len() == 0 || !is_digit(rest[0]),
    ensures
        spec_parse(bounded_header(w1, da, w2, w3, db, w4, w5, dc, rest)) == (if a <= b && b < c
            && all_ws(rest) {
            ContentRange::Bytes(ContentRangeBytes { first_byte: a, last_byte: b, complete_length: c })
        } else {
            ContentRange::Unknown
        }),
{
    let s = bounded_header(w1, da, w2, w3, db, w4, w5, dc, rest);
    let n1: int = 5 + w1.len() as int;  // da starts
    let n2: int = n1 + da.len() as int;  // w2 starts
    let n3: int = n2 + w2.len() as int;  // the '-'
    let n4: int = n3 + 1;  // w3 starts
    let n5: int = n4 + w3.len() as int;  // db starts
    let n6: int = n5 + db.len() as int;  // w4 starts
    let n7: int = n6 + w4.len() as int;  // the '/'
    let n8: int = n7 + 1;  // w5 starts
    let n9: int = n8 + w5.len() as int;  // dc starts
    let n10: int = n9 + dc.len() as int;  // rest starts
    assert(s.len() == n10 + rest.len());
    assert(forall|k: int| 0 <= k < 5 ==> s[k] == unit_prefix()[k]);
    assert(forall|k: int| 0 <= k < w1.len() ==> s[5 + k] == w1[k]);
    assert(forall|k: int| 0 <= k < da.len() ==> s[n1 + k] == da[k]);
    assert(forall|k: int| 0 <= k < w2.len() ==> s[n2 + k] == w2[k]);
    assert(s[n3] == 45);
    assert(forall|k: int| 0 <= k < w3.len() ==> s[n4 + k] == w3[k]);
    assert(forall|k: int| 0 <= k < db.len() ==> s[n5 + k] == db[k]);
    assert(forall|k: int| 0 <= k < w4.len() ==> s[n6 + k] == w4[k]);
    assert(s[n7] == 47);
    assert(forall|k: int| 0 <= k < w5.len() ==> s[n8 + k] == w5[k]);
    assert(forall|k: int| 0 <= k < dc.len() ==> s[n9 + k] == dc[k]);
    assert(forall|k: int| 0 <= k < rest.len() ==> s[n10 + k] == rest[k]);

    // the prefix, the mandatory whitespace, and the skip to the first digit
    assert(s[5] == w1[0]);
    lemma_skip_ws_at(s, 6, n1);
    // the first byte position
    assert(s.subrange(n1, n2) =~= da);
    lemma_parse_num_run(s, n1, n2);
    assert(parse_num(s, n1) == Some((a, n2)));
    // the '-' separator between its whitespace runs
    lemma_skip_ws_at(s, n2, n3);
    lemma_skip_ws_at(s, n4, n5);
    assert(parse_sep(s, n2, 45) == Some(n5));
    // the last byte position
    assert(s.subrange(n5, n6) =~= db);
    lemma_parse_num_run(s, n5, n6);
    assert(parse_num(s, n5) == Some((b, n6)));
    // the '/' separator between its whitespace runs
    lemma_skip_ws_at(s, n6, n7);
    lemma_skip_ws_at(s, n8, n9);
    assert(parse_sep(s, n6, 47) == Some(n9));
    // the complete length
    assert(s.subrange(n9, n10) =~= dc);
    lemma_parse_num_run(s, n9, n10);
    assert(parse_num(s, n9) == Some((c, n10)));
    // the trailing bytes decide
    lemma_only_ws_tail(s, n10, rest);
}

/// What an assembled `bytes {da}-{db}/*` header means: the parsed unbound
/// range when the range is well ordered and nothing but whitespace trails
/// it — and a parse failure in every other case.
#[verifier::rlimit(60)]
pub proof fn lemma_parse_unbound_header(
    w1: Seq<u8>,
    da: Seq<u8>,
    w2: Seq<u8>,
    w3: Seq<u8>,
    db: Seq<u8>,
    w4: Seq<u8>,
    w5: Seq<u8>,
    rest: Seq<u8>,
    a: u64,
    b: u64,
)
    requires
        all_ws(w1),
        w1.len() > 0,
        all_ws(w2),
        all_ws(w3),
        all_ws(w4),
        all_ws(w5),
        all_digits(da),
        da.len() > 0,
        digits_val(da) == a,
        all_digits(db),
        db.len() > 0,
        digits_val(db) == b,
    ensures
        spec_parse(unbound_header(w1, da, w2, w3, db, w4, w5, rest)) == (if a <= b && all_ws(rest) {
            ContentRange::UnboundBytes(ContentRangeUnbound { first_byte: a, last_byte: b })
        } else {
            ContentRange::Unknown
        }),
{
    let s = unbound_header(w1, da, w2, w3, db, w4, w5, rest);
    let n1: int = 5 + w1.len() as int;  // da starts
    let n2: int = n1 + da.len() as int;  // w2 starts
    let n3: int = n2 + w2.len() as int;  // the '-'
    let n4: int = n3 + 1;  // w3 starts
    let n5: int = n4 + w3.len() as int;  // db starts
    let n6: int = n5 + db.len() as int;  // w4 starts
    let n7: int = n6 + w4.len() as int;  // the '/'
    let n8: int = n7 + 1;  // w5 starts
    let n9: int = n8 + w5.len() as int;  // the '*'
    let n10: int = n9 + 1;  // rest starts
    assert(s.len() == n10 + rest.len());
    assert(forall|k: int| 0 <= k < 5 ==> s[k] == unit_prefix()[k]);
    assert(forall|k: int| 0 <= k < w1.len() ==> s[5 + k] == w1[k]);
    assert(forall|k: int| 0 <= k < da.len() ==> s[n1 + k] == da[k]);
    assert(forall|k: int| 0 <= k < w2.len() ==> s[n2 + k] == w2[k]);
    assert(s[n3] == 45);
    assert(forall|k: int| 0 <= k < w3.len() ==> s[n4 + k] == w3[k]);
    assert(forall|k: int| 0 <= k < db.len() ==> s[n5 + k] == db[k]);
    assert(forall|k: int| 0 <= k < w4.len() ==> s[n6 + k] == w4[k]);
    assert(s[n7] == 47);
    assert(forall|k: int| 0 <= k < w5.len() ==> s[n8 + k] == w5[k]);
    assert(s[n9] == 42);
    assert(forall|k: int| 0 <= k < rest.len() ==> s[n10 + k] == rest[k]);

    // the prefix, the mandatory whitespace, and the skip to the first digit
    assert(s[5] == w1[0]);
    lemma_skip_ws_at(s, 6, n1);
    // the first byte position
    assert(s.subrange(n1, n2) =~= da);
    lemma_parse_num_run(s, n1, n2);
    assert(parse_num(s, n1) == Some((a, n2)));
    // the '-' separator between its whitespace runs
    lemma_skip_ws_at(s, n2, n3);
    lemma_skip_ws_at(s, n4, n5);
    assert(parse_sep(s, n2, 45) == Some(n5));
    // the last byte position
    assert(s.subrange(n5, n6) =~= db);
    lemma_parse_num_run(s, n5, n6);
    assert(parse_num(s, n5) == Some((b, n6)));
    // the '/' separator between its whitespace runs
    lemma_skip_ws_at(s, n6, n7);
    lemma_skip_ws_at(s, n8, n9);
    assert(parse_sep(s, n6, 47) == Some(n9));
    // the '*' closes the range; the trailing bytes decide
    lemma_only_ws_tail(s, n10, rest);
}

/// The decimal digits of `n`, most significant first, with no leading
/// zeroes (a single `0` for zero).
pub open spec fn dec_digits(n: u64) -> Seq<u8>
    decreases n,
{
    if n < 10 {
        seq![(48 + n) as u8]
    } else {
        dec_digits(n / 10) + seq![(48 + n % 10) as u8]
    }
}

/// The decimal rendering of `n` is a non-empty digit string whose value is
/// `n` again.
pub proof fn lemma_dec_digits(n: u64)
    ensures
        all_digits(dec_digits(n)),
        dec_digits(n).len() > 0,
        digits_val(dec_digits(n)) == n,
    decreases n,
{
    let d = dec_digits(n);
    if n < 10 {
        assert(d.drop_last() =~= Seq::<u8>::empty());
        assert(digits_val(Seq::<u8>::empty()) == 0);
        assert(digits_val(d) == digit_val(d.last()));
    } else {
        lemma_dec_digits(n / 10);
        assert(d.drop_last() =~= dec_digits(n / 10));
        assert(d.last() == (48 + n % 10) as u8);
        assert(digits_val(d) == (n / 10) * 10 + n % 10);
    }
}

/// Round trip: the rendering `bytes {a}-{b}/{c}` of a well-formed bounded
/// range parses back to that very range, with any run of spaces and tabs
/// standing at each token boundary and after the last token.
pub proof fn lemma_round_trip(
    a: u64,
    b: u64,
    c: u64,
    w1: Seq<u8>,
    w2: Seq<u8>,
    w3: Seq<u8>,
    w4: Seq<u8>,
    w5: Seq<u8>,
    w6: Seq<u8>,
)
    requires
        a <= b,
        b < c,
        all_ws(w1),
        w1.len() > 0,
        all_ws(w2),
        all_ws(w3),
        all_ws(w4),
        all_ws(w5),
        all_ws(w6),
    ensures
        spec_parse(
            bounded_header(w1, dec_digits(a), w2, w3, dec_digits(b), w4, w5, dec_digits(c), w6),
        ) == ContentRange::Bytes(
            ContentRangeBytes { first_byte: a, last_byte: b, complete_length: c },
        ),
{
    lemma_dec_digits(a);
    lemma_dec_digits(b);
    lemma_dec_digits(c);
    if w6.len() > 0 {
        assert(is_ws(w6[0]));
    }
    lemma_parse_bounded_header(
        w1,
        dec_digits(a),
        w2,
        w3,
        dec_digits(b),
        w4,
        w5,
        dec_digits(c),
        w6,
        a,
        b,
        c,
    );
}

/// Ordering: a header `bytes {a}-{b}/{c}` whose bounds are misordered
/// (`a > b`), or whose last byte does not lie below the complete length
/// (`b >= c`), never parses — however large the numbers within 64 bits and
/// whatever whitespace stands at the boundaries.
pub proof fn lemma_misordered_rejected(
    a: u64,
    b: u64,
    c: u64,
    w1: Seq<u8>,
    w2: Seq<u8>,
    w3: Seq<u8>,
    w4: Seq<u8>,
    w5: Seq<u8>,
    w6: Seq<u8>,
)
    requires
        a > b || b >= c,
        all_ws(w1),
        w1.len() > 0,
        all_ws(w2),
        all_ws(w3),
        all_ws(w4),
        all_ws(w5),
        all_ws(w6),
    ensures
        spec_parse(
            bounded_header(w1, dec_digits(a), w2, w3, dec_digits(b), w4, w5, dec_digits(c), w6),
        ) == ContentRange::Unknown,
{
    lemma_dec_digits(a);
    lemma_dec_digits(b);
    lemma_dec_digits(c);
    if w6.len() > 0 {
        assert(is_ws(w6[0]));
    }
    lemma_parse_bounded_header(
        w1,
        dec_digits(a),
        w2,
        w3,
        dec_digits(b),
        w4,
        w5,
        dec_digits(c),
        w6,
        a,
        b,
        c,
    );
}

/// Overflow: a header whose first numeric literal is a digit run worth more
/// than `u64::MAX` never parses, whatever follows the run. (The literal
/// boundary itself is [`lemma_parse_num_run`]: a maximal digit run parses
/// exactly when its value fits in 64 bits, and to exactly that value.)
pub proof fn lemma_overflow_rejected(w1: Seq<u8>, d: Seq<u8>, rest: Seq<u8>)
    requires
        all_ws(w1),
        w1.len() > 0,
        all_digits(d),
        d.len() > 0,
        digits_val(d) > u64::MAX,
        rest.len() == 0 || !is_digit(rest[0]),
    ensures
        spec_parse(unit_prefix() + w1 + d + rest) == ContentRange::Unknown,
{
    let s = unit_prefix() + w1 + d + rest;
    let n1: int = 5 + w1.len() as int;  // d starts
    let n2: int = n1 + d.len() as int;  // rest starts
    assert(s.len() == n2 + rest.len());
    assert(forall|k: int| 0 <= k < 5 ==> s[k] == unit_prefix()[k]);
    assert(forall|k: int| 0 <= k < w1.len() ==> s[5 + k] == w1[k]);
    assert(forall|k: int| 0 <= k < d.len() ==> s[n1 + k] == d[k]);
    assert(forall|k: int| 0 <= k < rest.len() ==> s[n2 + k] == rest[k]);
    assert(s[5] == w1[0]);
    lemma_skip_ws_at(s, 6, n1);
    assert(s.subrange(n1, n2) =~= d);
    lemma_parse_num_run(s, n1, n2);
    assert(parse_num(s, n1) is None);
}

/// Prefix strictness: an input that does not start with the exact
/// case-sensitive literal `bytes` followed by a whitespace byte never
/// parses.
pub proof fn lemma_prefix_strictness(s: Seq<u8>)
    requires
        !(s.len() > 5 && has_unit_prefix(s) && is_ws(s[5])),
    ensures
        spec_parse(s) == ContentRange::Unknown,
{
}

/// No trailing data: a well-formed bounded-range header followed — after
/// its last token and any whitespace — by some non-whitespace byte never
/// parses.
pub proof fn lemma_trailing_rejected(
    a: u64,
    b: u64,
    c: u64,
    w1: Seq<u8>,
    w2: Seq<u8>,
    w3: Seq<u8>,
    w4: Seq<u8>,
    w5: Seq<u8>,
    w6: Seq<u8>,
    x: u8,
    tail: Seq<u8>,
)
    requires
        all_ws(w1),
        w1.len() > 0,
        all_ws(w2),
        all_ws(w3),
        all_ws(w4),
        all_ws(w5),
        all_ws(w6),
        !is_ws(x),
        w6.len() > 0 || !is_digit(x),
    ensures
        spec_parse(
            bounded_header(
                w1,
                dec_digits(a),
                w2,
                w3,
                dec_digits(b),
                w4,
                w5,
                dec_digits(c),
                w6 + seq![x] + tail,
            ),
        ) == ContentRange::Unknown,
{
    let rest = w6 + seq![x] + tail;
    lemma_dec_digits(a);
    lemma_dec_digits(b);
    lemma_dec_digits(c);
    assert(rest[w6.len() as int] == x);
    if w6.len() > 0 {
        assert(is_ws(w6[0]) && rest[0] == w6[0]);
    }
    lemma_parse_bounded_header(
        w1,
        dec_digits(a),
        w2,
        w3,
        dec_digits(b),
        w4,
        w5,
        dec_digits(c),
        rest,
        a,
        b,
        c,
    );
}

} // verus!
