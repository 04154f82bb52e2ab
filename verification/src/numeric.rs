//! Parsing decimal second counts into timestamps, and rendering timestamps
//! back as decimal text.

use vstd::prelude::*;

use crate::digits::{
    all_digits, ascii_chars, ascii_to_string, dec_digits, digits_val, is_ascii_seq, is_digit,
    lemma_ascii_concat, lemma_dec_digits_ascii, lemma_digits_are_ascii, lemma_digits_val_bound,
    lemma_digits_val_nonneg, lemma_digits_val_push, lemma_pow10_adds, lemma_pow10_monotone,
    lemma_pow10_values, lemma_trim_zeros_digits, nine_digits, pow10, pow10_u32, push_dec_digits,
    push_nine_digits, trim_trailing_zeros, trim_zeros,
};
use crate::timestamp::{ConvError, Timestamp};
use vstd::string::StringSliceAdditionalSpecFns;

verus! {

/// The text starts with an explicit sign.
pub open spec fn has_sign(s: Seq<u8>) -> bool {
    s.len() > 0 && (s[0] == 43 || s[0] == 45)
}

/// The text starts with a minus sign.
pub open spec fn is_negative(s: Seq<u8>) -> bool {
    s.len() > 0 && s[0] == 45
}

/// The text with its sign, if any, removed.
pub open spec fn body_of(s: Seq<u8>) -> Seq<u8> {
    if has_sign(s) {
        s.skip(1)
    } else {
        s
    }
}

/// The body holds a decimal point.
pub open spec fn has_dot(b: Seq<u8>) -> bool {
    exists|j: int| 0 <= j < b.len() && b[j] == 46
}

/// The position of the decimal point.
pub open spec fn dot_index(b: Seq<u8>) -> int {
    choose|j: int| 0 <= j < b.len() && b[j] == 46
}

/// The digits before the decimal point (the whole body when there is none).
pub open spec fn int_digits(b: Seq<u8>) -> Seq<u8> {
    if has_dot(b) {
        b.take(dot_index(b))
    } else {
        b
    }
}

/// The digits after the decimal point.
pub open spec fn frac_digits(b: Seq<u8>) -> Seq<u8> {
    if has_dot(b) {
        b.skip(dot_index(b) + 1)
    } else {
        Seq::empty()
    }
}

/// A well-formed unsigned decimal literal: digits with at most one decimal
/// point somewhere among them, and at least one digit.
pub open spec fn valid_body(b: Seq<u8>) -> bool {
    &&& b.len() > 0
    &&& all_digits(int_digits(b))
    &&& all_digits(frac_digits(b))
    &&& int_digits(b).len() + frac_digits(b).len() > 0
}

/// A well-formed decimal literal: an optional sign before a well-formed body.
pub open spec fn valid_decimal(s: Seq<u8>) -> bool {
    valid_body(body_of(s))
}

/// The nanoseconds the fractional digits denote, rounded to the nearest
/// nanosecond (ties away from zero) and clamped below one whole second.
pub open spec fn frac_nanos(f: Seq<u8>) -> int {
    if f.len() <= 9 {
        digits_val(f) * pow10((9 - f.len()) as nat)
    } else {
        let rounded = digits_val(f.take(9)) + if f[9] >= 53 {
            1int
        } else {
            0int
        };
        if rounded > 999_999_999 {
            999_999_999
        } else {
            rounded
        }
    }
}

/// The value of the digits before the point.
pub open spec fn int_val_of(s: Seq<u8>) -> int {
    digits_val(int_digits(body_of(s)))
}

/// The nanosecond part of the literal.
pub open spec fn frac_nanos_of(s: Seq<u8>) -> int {
    frac_nanos(frac_digits(body_of(s)))
}

/// The whole-second part of the parsed timestamp, with the floor convention:
/// a negative literal with a fractional part lands one below its integer part.
pub open spec fn parsed_secs(s: Seq<u8>) -> int {
    if !is_negative(s) {
        int_val_of(s)
    } else if frac_nanos_of(s) == 0 {
        -int_val_of(s)
    } else {
        -int_val_of(s) - 1
    }
}

/// The nanosecond part of the parsed timestamp.
pub open spec fn parsed_nanos(s: Seq<u8>) -> int {
    if !is_negative(s) {
        frac_nanos_of(s)
    } else if frac_nanos_of(s) == 0 {
        0
    } else {
        1_000_000_000 - frac_nanos_of(s)
    }
}

/// The parsed value's whole seconds stay representable.
pub open spec fn parsed_fits(s: Seq<u8>) -> bool {
    i64::MIN <= parsed_secs(s) <= i64::MAX
}

/// A decimal point of a well-formed body is the one at its dot position.
proof fn lemma_dot_unique(b: Seq<u8>, k: int)
    requires
        valid_body(b),
        0 <= k < b.len(),
        b[k] == 46,
    ensures
        has_dot(b),
        k == dot_index(b),
{
    assert(has_dot(b));
    let dj = dot_index(b);
    assert(0 <= dj < b.len() && b[dj] == 46);
    if k < dj {
        assert(int_digits(b)[k] == b[k]);
        assert(is_digit(int_digits(b)[k]));
    } else if k > dj {
        assert(frac_digits(b)[k - dj - 1] == b[k]);
        assert(is_digit(frac_digits(b)[k - dj - 1]));
    }
}

/// Parses a decimal count of seconds: an optional sign, digits, and at most
/// one decimal point. The fractional part is rounded to the nearest
/// nanosecond, ties away from zero, and clamped below one whole second.
/// Text that is not such a literal is a `ParseError`; a literal whose whole
/// seconds exceed the representable range is an `InvalidTimestamp`.
#[verifier::rlimit(60)]
pub fn parse_decimal(input: &str) -> (r: Result<Timestamp, ConvError>)
    ensures
        r matches Err(e) && e == ConvError::ParseError <==> !valid_decimal(input.spec_bytes()),
        r matches Err(e) && e == ConvError::InvalidTimestamp <==> valid_decimal(
            input.spec_bytes(),
        ) && !parsed_fits(input.spec_bytes()),
        r matches Ok(t) <==> valid_decimal(input.spec_bytes()) && parsed_fits(input.spec_bytes()),
        r matches Ok(t) ==> {
            &&& t.secs == parsed_secs(input.spec_bytes())
            &&& t.nanos == parsed_nanos(input.spec_bytes())
            &&& t.wf()
        },
{
    let b: &[u8] = input.as_bytes();
    let n: usize = b.len();
    let ghost s = input.spec_bytes();
    let mut start: usize = 0;
    let mut neg: bool = false;
    if n > 0 && (b[0] == 43 || b[0] == 45) {
        neg = b[0] == 45;
        start = 1;
    }
    let ghost body = body_of(s);
    proof {
        assert(body =~= s.subrange(start as int, n as int));
        assert(neg == is_negative(s));
    }
    // Scan the body: all bytes must be digits, except at most one point.
    let mut dot: Option<usize> = None;
    let mut j: usize = start;
    while j < n
        invariant
            start <= j <= n <= b@.len(),
            b@ == s,
            s == input.spec_bytes(),
            body == body_of(s),
            body == s.subrange(start as int, n as int),
            start <= 1,
            match dot {
                Option::None => all_digits(s.subrange(start as int, j as int)),
                Option::Some(d) => {
                    &&& start <= d < j
                    &&& s[d as int] == 46
                    &&& all_digits(s.subrange(start as int, d as int))
                    &&& all_digits(s.subrange(d as int + 1, j as int))
                },
            },
        decreases n - j,
    {
        let c = b[j];
        if c == 46 {
            if dot.is_some() {
                proof {
                    let d = dot->Some_0;
                    if valid_body(body) {
                        assert(s[j as int] == 46);
                        assert(body[d - start] == s[d as int]);
                        assert(body[j - start] == s[j as int]);
                        lemma_dot_unique(body, d - start);
                        lemma_dot_unique(body, j - start);
                        assert(false);
                    }
                }
                return Err(ConvError::ParseError);
            }
            dot = Some(j);
        } else if c < 48 || c > 57 {
            proof {
                if valid_body(body) {
                    if body[j - start] == 46 {
                        assert(false);
                    } else {
                        lemma_scan_position_is_digit(body, j - start);
                        assert(is_digit(body[j - start]));
                    }
                }
            }
            return Err(ConvError::ParseError);
        } else {
            proof {
                let ghost jj = j as int;
                match dot {
                    Option::None => {
                        assert(s.subrange(start as int, jj + 1) =~= s.subrange(
                            start as int,
                            jj,
                        ).push(s[jj]));
                    },
                    Option::Some(d) => {
                        assert(s.subrange(d as int + 1, jj + 1) =~= s.subrange(
                            d as int + 1,
                            jj,
                        ).push(s[jj]));
                    },
                }
            }
        }
        j += 1;
    }
    // The shape checks: a nonempty body with at least one digit.
    let int_end: usize = match dot {
        Some(d) => d,
        None => n,
    };
    let frac_start: usize = match dot {
        Some(d) => d + 1,
        None => n,
    };
    let digit_count: usize = (n - start) - (if dot.is_some() {
        1
    } else {
        0
    });
    proof {
        match dot {
            Option::None => {
                assert(int_digits(body) =~= s.subrange(start as int, int_end as int)) by {
                    if has_dot(body) {
                        let dj = dot_index(body);
                        assert(body[dj] == 46);
                        assert(s.subrange(start as int, n as int)[dj] == s[start + dj]);
                        assert(is_digit(body[dj]));
                    }
                };
                assert(frac_digits(body) =~= Seq::<u8>::empty());
            },
            Option::Some(d) => {
                assert(body[d - start] == s[d as int]);
                assert(body[d - start] == 46);
                assert(body.take(d - start) =~= s.subrange(start as int, d as int));
                assert(body.skip(d - start + 1) =~= s.subrange(d as int + 1, n as int));
                lemma_scan_dot_index(body, d - start);
                assert(int_digits(body) =~= s.subrange(start as int, int_end as int));
                assert(frac_digits(body) =~= s.subrange(frac_start as int, n as int));
            },
        }
    }
    if digit_count == 0 {
        proof {
            assert(int_digits(body).len() + frac_digits(body).len() == 0);
        }
        return Err(ConvError::ParseError);
    }
    proof {
        assert(valid_body(body));
    }
    // The integer part, with an overflow marker for values beyond `u64`.
    let ghost int_seq = s.subrange(start as int, int_end as int);
    let mut acc: u64 = 0;
    let mut big: bool = false;
    let mut k: usize = start;
    while k < int_end
        invariant
            start <= k <= int_end <= n <= b@.len(),
            b@ == s,
            all_digits(int_seq),
            int_seq == s.subrange(start as int, int_end as int),
            !big ==> acc == digits_val(s.subrange(start as int, k as int)),
            big ==> digits_val(s.subrange(start as int, k as int)) > u64::MAX,
        decreases int_end - k,
    {
        let ghost kk = k as int;
        let ghost prefix = s.subrange(start as int, kk);
        proof {
            assert(int_seq[kk - start] == s[kk]);
            assert(is_digit(s[kk]));
            assert(s.subrange(start as int, kk + 1) =~= prefix.push(s[kk]));
            lemma_digits_val_push(prefix, s[kk]);
        }
        let d: u8 = b[k] - 48;
        if !big {
            match acc.checked_mul(10) {
                Some(x) => {
                    match x.checked_add(d as u64) {
                        Some(y) => {
                            acc = y;
                        },
                        None => {
                            big = true;
                        },
                    }
                },
                None => {
                    big = true;
                },
            }
        } else {
            proof {
                lemma_digits_val_push(prefix, s[kk]);
                assert(digits_val(prefix) > u64::MAX);
                assert(digits_val(prefix) * 10 >= digits_val(prefix) * 1) by (nonlinear_arith)
                    requires
                        digits_val(prefix) >= 0,
                ;
            }
        }
        k += 1;
    }
    proof {
        if !big {
            assert(acc == digits_val(int_seq));
        } else {
            assert(digits_val(int_seq) > u64::MAX);
        }
        lemma_digits_val_nonneg(int_seq);
    }
    // The fractional part, read as nanoseconds.
    let ghost frac_seq = frac_digits(body);
    let frac_len: usize = n - frac_start;
    let take9: usize = if frac_len > 9 {
        9
    } else {
        frac_len
    };
    let mut fv: u32 = 0;
    let mut k2: usize = frac_start;
    proof {
        lemma_pow10_values();
    }
    while k2 < frac_start + take9
        invariant
            frac_start <= k2 <= frac_start + take9 <= n <= b@.len(),
            take9 <= 9,
            b@ == s,
            frac_seq == s.subrange(frac_start as int, n as int),
            all_digits(frac_seq),
            fv == digits_val(s.subrange(frac_start as int, k2 as int)),
            fv < 100_000_000 || k2 == frac_start + 9,
        decreases frac_start + take9 - k2,
    {
        let ghost kk = k2 as int;
        let ghost prefix = s.subrange(frac_start as int, kk);
        proof {
            lemma_pow10_values();
            assert(frac_seq[kk - frac_start] == s[kk]);
            assert(is_digit(s[kk]));
            assert(s.subrange(frac_start as int, kk + 1) =~= prefix.push(s[kk]));
            lemma_digits_val_push(prefix, s[kk]);
            assert(prefix =~= frac_seq.subrange(0, kk - frac_start));
            assert(all_digits(prefix));
            lemma_digits_val_bound(prefix);
            lemma_pow10_monotone((kk - frac_start) as nat, 8);
        }
        let d: u8 = b[k2] - 48;
        fv = fv * 10 + d as u32;
        proof {
            let next = s.subrange(frac_start as int, kk + 1);
            assert(next =~= frac_seq.subrange(0, kk + 1 - frac_start));
            assert(all_digits(next));
            if kk + 1 - frac_start <= 8 {
                lemma_digits_val_bound(next);
                lemma_pow10_monotone((kk + 1 - frac_start) as nat, 8);
            }
        }
        k2 += 1;
    }
    let nanos_frac: u32;
    if frac_len <= 9 {
        let scale: u32 = pow10_u32(9 - frac_len);
        proof {
            assert(s.subrange(frac_start as int, (frac_start + take9) as int) =~= frac_seq);
            lemma_digits_val_bound(frac_seq);
            lemma_pow10_adds(frac_len as nat, (9 - frac_len) as nat);
            assert(digits_val(frac_seq) * (scale as int) + scale <= pow10(frac_len as nat) * (
            scale as int)) by (nonlinear_arith)
                requires
                    digits_val(frac_seq) < pow10(frac_len as nat),
                    scale >= 1,
            ;
        }
        nanos_frac = fv * scale;
        proof {
            assert(nanos_frac as int == frac_nanos(frac_seq));
        }
    } else {
        proof {
            assert(s.subrange(frac_start as int, (frac_start + 9) as int) =~= frac_seq.take(9));
            assert(all_digits(frac_seq.take(9)));
            lemma_digits_val_bound(frac_seq.take(9));
            assert(frac_seq[9] == s[frac_start + 9]);
        }
        let r: u32 = if b[frac_start + 9] >= 53 {
            1
        } else {
            0
        };
        let v: u32 = fv + r;
        nanos_frac = if v > 999_999_999 {
            999_999_999
        } else {
            v
        };
        proof {
            assert(nanos_frac as int == frac_nanos(frac_seq));
        }
    }
    proof {
        assert(nanos_frac as int == frac_nanos_of(s));
        assert(nanos_frac < 1_000_000_000);
        assert(int_val_of(s) == digits_val(int_seq));
    }
    // Assemble the timestamp, watching the representable range.
    if !neg {
        if big || acc > 9_223_372_036_854_775_807u64 {
            return Err(ConvError::InvalidTimestamp);
        }
        Ok(Timestamp { secs: acc as i64, nanos: nanos_frac })
    } else if nanos_frac == 0 {
        if big || acc > 9_223_372_036_854_775_808u64 {
            return Err(ConvError::InvalidTimestamp);
        }
        let secs: i64 = if acc == 9_223_372_036_854_775_808u64 {
            i64::MIN
        } else {
            -(acc as i64)
        };
        Ok(Timestamp { secs, nanos: 0 })
    } else {
        if big || acc > 9_223_372_036_854_775_807u64 {
            return Err(ConvError::InvalidTimestamp);
        }
        Ok(Timestamp { secs: -(acc as i64) - 1, nanos: 1_000_000_000 - nanos_frac })
    }
}

/// A byte of a well-formed body away from its dot position is a digit.
proof fn lemma_scan_position_is_digit(b: Seq<u8>, k: int)
    requires
        valid_body(b),
        0 <= k < b.len(),
        b[k] != 46,
    ensures
        is_digit(b[k]),
{
    if has_dot(b) {
        let dj = dot_index(b);
        assert(0 <= dj < b.len() && b[dj] == 46);
        if k < dj {
            assert(int_digits(b)[k] == b[k]);
        } else {
            assert(k > dj);
            assert(frac_digits(b)[k - dj - 1] == b[k]);
        }
    } else {
        assert(int_digits(b)[k] == b[k]);
    }
}

/// A dot whose left and right sides are all digits is the dot position.
proof fn lemma_scan_dot_index(b: Seq<u8>, k: int)
    requires
        0 <= k < b.len(),
        b[k] == 46,
        all_digits(b.take(k)),
        all_digits(b.skip(k + 1)),
    ensures
        has_dot(b),
        dot_index(b) == k,
{
    assert(has_dot(b));
    let dj = dot_index(b);
    assert(0 <= dj < b.len() && b[dj] == 46);
    if dj < k {
        assert(b.take(k)[dj] == b[dj]);
        assert(is_digit(b[dj]));
    } else if dj > k {
        assert(b.skip(k + 1)[dj - k - 1] == b[dj]);
        assert(is_digit(b[dj]));
    }
}

/// The decimal rendering of a timestamp: the signed whole seconds, then the
/// fractional digits with trailing zeros removed, when there are any.
pub open spec fn timestamp_decimal(t: Timestamp) -> Seq<u8> {
    if t.secs >= 0 {
        dec_digits(t.secs as nat) + frac_part(t.nanos as int)
    } else if t.nanos == 0 {
        seq![45u8] + dec_digits((-t.secs) as nat)
    } else {
        seq![45u8] + dec_digits((-t.secs - 1) as nat) + frac_part(1_000_000_000 - t.nanos as int)
    }
}

/// The fractional suffix: nothing for a whole value, else a point and the
/// nanosecond digits with trailing zeros removed.
pub open spec fn frac_part(nanos: int) -> Seq<u8> {
    if nanos == 0 {
        Seq::empty()
    } else {
        seq![46u8] + trim_zeros(nine_digits(nanos))
    }
}

/// The nine-digit rendering of a nanosecond count is all digits.
proof fn lemma_nine_digits_digits(n: int)
    requires
        0 <= n < 1_000_000_000,
    ensures
        all_digits(nine_digits(n)),
{
    assert forall|i: int| 0 <= i < nine_digits(n).len() implies is_digit(
        #[trigger] nine_digits(n)[i],
    ) by {
        assert(0 <= n / 100_000_000 <= 9);
    }
}

/// The fractional suffix is ASCII.
proof fn lemma_frac_part_ascii(nanos: int)
    requires
        0 <= nanos < 1_000_000_000,
    ensures
        is_ascii_seq(frac_part(nanos)),
{
    if nanos != 0 {
        lemma_nine_digits_digits(nanos);
        lemma_trim_zeros_digits(nine_digits(nanos));
        lemma_digits_are_ascii(trim_zeros(nine_digits(nanos)));
        lemma_ascii_concat(seq![46u8], trim_zeros(nine_digits(nanos)));
    }
}

/// Appends the fractional suffix for a nanosecond count.
fn push_frac_part(nanos: u32, out: &mut Vec<u8>)
    requires
        nanos < 1_000_000_000,
    ensures
        final(out)@ == old(out)@ + frac_part(nanos as int),
{
    if nanos == 0 {
        assert(out@ =~= out@ + frac_part(nanos as int));
        return ;
    }
    out.push(46);
    let mut tmp: Vec<u8> = Vec::new();
    push_nine_digits(nanos, &mut tmp);
    proof {
        assert(tmp@ =~= nine_digits(nanos as int));
    }
    trim_trailing_zeros(&mut tmp);
    out.append(&mut tmp);
    assert(out@ =~= old(out)@ + frac_part(nanos as int));
}

/// Renders a timestamp as decimal text: the signed whole seconds, a point and
/// the fractional digits only when the fraction is not zero, trailing zeros
/// removed.
pub fn timestamp_to_decimal(t: &Timestamp) -> (r: String)
    requires
        t.wf(),
    ensures
        r@ == ascii_chars(timestamp_decimal(*t)),
{
    let mut buf: Vec<u8> = Vec::new();
    if t.secs >= 0 {
        push_dec_digits(t.secs as u64, &mut buf);
        push_frac_part(t.nanos, &mut buf);
        proof {
            lemma_dec_digits_ascii(t.secs as nat);
            lemma_digits_are_ascii(dec_digits(t.secs as nat));
            lemma_frac_part_ascii(t.nanos as int);
            lemma_ascii_concat(dec_digits(t.secs as nat), frac_part(t.nanos as int));
            assert(buf@ =~= timestamp_decimal(*t));
        }
    } else if t.nanos == 0 {
        buf.push(45);
        let mag: u64 = if t.secs == i64::MIN {
            9_223_372_036_854_775_808u64
        } else {
            (-t.secs) as u64
        };
        push_dec_digits(mag, &mut buf);
        proof {
            lemma_dec_digits_ascii(mag as nat);
            lemma_digits_are_ascii(dec_digits(mag as nat));
            lemma_ascii_concat(seq![45u8], dec_digits(mag as nat));
            assert(buf@ =~= timestamp_decimal(*t));
        }
    } else {
        buf.push(45);
        let mag: i64 = -(t.secs + 1);
        push_dec_digits(mag as u64, &mut buf);
        push_frac_part(1_000_000_000 - t.nanos, &mut buf);
        proof {
            lemma_dec_digits_ascii(mag as nat);
            lemma_digits_are_ascii(dec_digits(mag as nat));
            lemma_frac_part_ascii(1_000_000_000 - t.nanos as int);
            lemma_ascii_concat(seq![45u8], dec_digits(mag as nat));
            lemma_ascii_concat(
                seq![45u8] + dec_digits(mag as nat),
                frac_part(1_000_000_000 - t.nanos as int),
            );
            assert(buf@ =~= timestamp_decimal(*t));
        }
    }
    ascii_to_string(buf)
}

} // verus!
