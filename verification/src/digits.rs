//! Decimal digit sequences: their values, their rendering, and the executable
//! helpers that build them into byte buffers.

use vstd::prelude::*;

verus! {

/// An ASCII decimal digit.
pub open spec fn is_digit(b: u8) -> bool {
    48 <= b <= 57
}

/// Every byte of the sequence is an ASCII decimal digit.
pub open spec fn all_digits(s: Seq<u8>) -> bool {
    forall|i: int| 0 <= i < s.len() ==> is_digit(#[trigger] s[i])
}

/// Every byte of the sequence is ASCII.
pub open spec fn is_ascii_seq(s: Seq<u8>) -> bool {
    forall|i: int| 0 <= i < s.len() ==> #[trigger] s[i] < 128
}

/// The number a sequence of ASCII digits denotes, most significant first.
pub open spec fn digits_val(s: Seq<u8>) -> int
    decreases s.len(),
{
    if s.len() == 0 {
        0
    } else {
        digits_val(s.drop_last()) * 10 + (s.last() - 48)
    }
}

/// Ten to the power `k`.
pub open spec fn pow10(k: nat) -> int
    decreases k,
{
    if k == 0 {
        1
    } else {
        10 * pow10((k - 1) as nat)
    }
}

/// The shortest decimal rendering of `n`, most significant digit first.
pub open spec fn dec_digits(n: nat) -> Seq<u8>
    decreases n,
{
    if n < 10 {
        seq![(48 + n) as u8]
    } else {
        dec_digits(n / 10).push((48 + n % 10) as u8)
    }
}

/// The sequence with its trailing zero digits removed.
pub open spec fn trim_zeros(s: Seq<u8>) -> Seq<u8>
    decreases s.len(),
{
    if s.len() > 0 && s.last() == 48 {
        trim_zeros(s.drop_last())
    } else {
        s
    }
}

/// Two decimal digits, zero padded.
pub open spec fn two_digits(n: int) -> Seq<u8> {
    seq![(48 + n / 10) as u8, (48 + n % 10) as u8]
}

/// Three decimal digits, zero padded.
pub open spec fn three_digits(n: int) -> Seq<u8> {
    seq![(48 + n / 100) as u8, (48 + (n / 10) % 10) as u8, (48 + n % 10) as u8]
}

/// Four decimal digits, zero padded.
pub open spec fn four_digits(n: int) -> Seq<u8> {
    seq![
        (48 + n / 1000) as u8,
        (48 + (n / 100) % 10) as u8,
        (48 + (n / 10) % 10) as u8,
        (48 + n % 10) as u8,
    ]
}

/// Nine decimal digits, zero padded.
pub open spec fn nine_digits(n: int) -> Seq<u8> {
    seq![
        (48 + n / 100_000_000) as u8,
        (48 + (n / 10_000_000) % 10) as u8,
        (48 + (n / 1_000_000) % 10) as u8,
        (48 + (n / 100_000) % 10) as u8,
        (48 + (n / 10_000) % 10) as u8,
        (48 + (n / 1000) % 10) as u8,
        (48 + (n / 100) % 10) as u8,
        (48 + (n / 10) % 10) as u8,
        (48 + n % 10) as u8,
    ]
}

/// The bytes of the sequence, read as characters.
pub open spec fn ascii_chars(s: Seq<u8>) -> Seq<char> {
    s.map_values(|b: u8| b as char)
}

/// The named powers of ten up to one billion.
pub proof fn lemma_pow10_values()
    ensures
        pow10(0) == 1,
        pow10(1) == 10,
        pow10(2) == 100,
        pow10(3) == 1000,
        pow10(4) == 10_000,
        pow10(5) == 100_000,
        pow10(6) == 1_000_000,
        pow10(7) == 10_000_000,
        pow10(8) == 100_000_000,
        pow10(9) == 1_000_000_000,
{
    reveal_with_fuel(pow10, 11);
}

/// Ten to the sum of two powers is the product of ten to each.
pub proof fn lemma_pow10_adds(a: nat, b: nat)
    ensures
        pow10(a + b) == pow10(a) * pow10(b),
    decreases a,
{
    if a == 0 {
    } else {
        lemma_pow10_adds((a - 1) as nat, b);
        assert(pow10(a + b) == 10 * pow10((a - 1) as nat + b));
        assert(10 * (pow10((a - 1) as nat) * pow10(b)) == (10 * pow10((a - 1) as nat)) * pow10(
            b,
        )) by (nonlinear_arith);
    }
}

/// A sequence of digits is a sequence of ASCII bytes.
pub proof fn lemma_digits_are_ascii(s: Seq<u8>)
    requires
        all_digits(s),
    ensures
        is_ascii_seq(s),
{
}

/// The concatenation of two ASCII sequences is ASCII.
pub proof fn lemma_ascii_concat(a: Seq<u8>, b: Seq<u8>)
    requires
        is_ascii_seq(a),
        is_ascii_seq(b),
    ensures
        is_ascii_seq(a + b),
{
    assert forall|i: int| 0 <= i < (a + b).len() implies #[trigger] (a + b)[i] < 128 by {
        if i < a.len() {
            assert((a + b)[i] == a[i]);
        } else {
            assert((a + b)[i] == b[i - a.len()]);
        }
    }
}

/// Two-digit renderings of values below one hundred are digits.
pub proof fn lemma_two_digits_digits(n: int)
    requires
        0 <= n < 100,
    ensures
        all_digits(two_digits(n)),
{
}

/// Three-digit renderings of values below one thousand are digits.
pub proof fn lemma_three_digits_digits(n: int)
    requires
        0 <= n < 1000,
    ensures
        all_digits(three_digits(n)),
{
}

/// Four-digit renderings of values below ten thousand are digits.
pub proof fn lemma_four_digits_digits(n: int)
    requires
        0 <= n < 10000,
    ensures
        all_digits(four_digits(n)),
{
}

/// The value a digit sequence denotes is never negative.
pub proof fn lemma_digits_val_nonneg(s: Seq<u8>)
    requires
        all_digits(s),
    ensures
        digits_val(s) >= 0,
    decreases s.len(),
{
    if s.len() > 0 {
        assert(all_digits(s.drop_last()));
        assert(is_digit(s.last()));
        lemma_digits_val_nonneg(s.drop_last());
    }
}

/// The value a digit sequence denotes stays below ten to its length.
pub proof fn lemma_digits_val_bound(s: Seq<u8>)
    requires
        all_digits(s),
    ensures
        0 <= digits_val(s) < pow10(s.len()),
    decreases s.len(),
{
    if s.len() > 0 {
        assert(all_digits(s.drop_last()));
        assert(is_digit(s.last()));
        lemma_digits_val_bound(s.drop_last());
    }
}

/// Appending a digit multiplies the denoted value by ten and adds the digit.
pub proof fn lemma_digits_val_push(s: Seq<u8>, b: u8)
    ensures
        digits_val(s.push(b)) == digits_val(s) * 10 + (b - 48),
{
    assert(s.push(b).drop_last() =~= s);
    assert(s.push(b).last() == b);
}

/// Ten to a power never decreases as the power grows.
pub proof fn lemma_pow10_monotone(a: nat, b: nat)
    requires
        a <= b,
    ensures
        1 <= pow10(a) <= pow10(b),
    decreases b,
{
    if b > 0 {
        if a == b {
            lemma_pow10_monotone((a - 1) as nat, (b - 1) as nat);
        } else {
            lemma_pow10_monotone(a, (b - 1) as nat);
        }
    }
}

/// The shortest rendering of a number consists of digits only.
pub proof fn lemma_dec_digits_ascii(n: nat)
    ensures
        all_digits(dec_digits(n)),
        dec_digits(n).len() > 0,
    decreases n,
{
    if n >= 10 {
        lemma_dec_digits_ascii(n / 10);
        assert forall|i: int| 0 <= i < dec_digits(n).len() implies is_digit(
            #[trigger] dec_digits(n)[i],
        ) by {
            if i < dec_digits(n / 10).len() {
                assert(dec_digits(n)[i] == dec_digits(n / 10)[i]);
            }
        }
    }
}

/// Trimming trailing zeros keeps a digit sequence made of digits.
pub proof fn lemma_trim_zeros_digits(s: Seq<u8>)
    requires
        all_digits(s),
    ensures
        all_digits(trim_zeros(s)),
        trim_zeros(s).len() <= s.len(),
    decreases s.len(),
{
    if s.len() > 0 && s.last() == 48 {
        assert(all_digits(s.drop_last()));
        lemma_trim_zeros_digits(s.drop_last());
    }
}

/// Appends the shortest decimal rendering of `n`.
pub fn push_dec_digits(n: u64, out: &mut Vec<u8>)
    ensures
        final(out)@ == old(out)@ + dec_digits(n as nat),
    decreases n,
{
    if n < 10 {
        out.push(48 + n as u8);
        assert(out@ =~= old(out)@ + dec_digits(n as nat));
    } else {
        push_dec_digits(n / 10, out);
        out.push(48 + (n % 10) as u8);
        assert(out@ =~= old(out)@ + dec_digits(n as nat));
    }
}

/// Appends two zero-padded decimal digits.
pub fn push_two_digits(n: u32, out: &mut Vec<u8>)
    requires
        n < 100,
    ensures
        final(out)@ == old(out)@ + two_digits(n as int),
{
    out.push(48 + (n / 10) as u8);
    out.push(48 + (n % 10) as u8);
    assert(out@ =~= old(out)@ + two_digits(n as int));
}

/// Appends three zero-padded decimal digits.
pub fn push_three_digits(n: u32, out: &mut Vec<u8>)
    requires
        n < 1000,
    ensures
        final(out)@ == old(out)@ + three_digits(n as int),
{
    out.push(48 + (n / 100) as u8);
    out.push(48 + ((n / 10) % 10) as u8);
    out.push(48 + (n % 10) as u8);
    assert(out@ =~= old(out)@ + three_digits(n as int));
}

/// Appends four zero-padded decimal digits.
pub fn push_four_digits(n: u32, out: &mut Vec<u8>)
    requires
        n < 10000,
    ensures
        final(out)@ == old(out)@ + four_digits(n as int),
{
    out.push(48 + (n / 1000) as u8);
    out.push(48 + ((n / 100) % 10) as u8);
    out.push(48 + ((n / 10) % 10) as u8);
    out.push(48 + (n % 10) as u8);
    assert(out@ =~= old(out)@ + four_digits(n as int));
}

/// Appends nine zero-padded decimal digits.
pub fn push_nine_digits(n: u32, out: &mut Vec<u8>)
    requires
        n < 1_000_000_000,
    ensures
        final(out)@ == old(out)@ + nine_digits(n as int),
{
    out.push(48 + (n / 100_000_000) as u8);
    out.push(48 + ((n / 10_000_000) % 10) as u8);
    out.push(48 + ((n / 1_000_000) % 10) as u8);
    out.push(48 + ((n / 100_000) % 10) as u8);
    out.push(48 + ((n / 10_000) % 10) as u8);
    out.push(48 + ((n / 1000) % 10) as u8);
    out.push(48 + ((n / 100) % 10) as u8);
    out.push(48 + ((n / 10) % 10) as u8);
    out.push(48 + (n % 10) as u8);
    assert(out@ =~= old(out)@ + nine_digits(n as int));
}

/// Ten to the power `k`, for the powers a nanosecond count can need.
pub fn pow10_u32(k: usize) -> (r: u32)
    requires
        k <= 9,
    ensures
        r as int == pow10(k as nat),
{
    proof {
        lemma_pow10_values();
    }
    if k == 0 {
        1
    } else if k == 1 {
        10
    } else if k == 2 {
        100
    } else if k == 3 {
        1000
    } else if k == 4 {
        10_000
    } else if k == 5 {
        100_000
    } else if k == 6 {
        1_000_000
    } else if k == 7 {
        10_000_000
    } else if k == 8 {
        100_000_000
    } else {
        1_000_000_000
    }
}

/// Removes the trailing zero digits of the buffer.
pub fn trim_trailing_zeros(v: &mut Vec<u8>)
    ensures
        final(v)@ == trim_zeros(old(v)@),
{
    loop
        invariant
            trim_zeros(v@) == trim_zeros(old(v)@),
        decreases v@.len(),
    {
        if v.len() == 0 {
            return ;
        }
        let b = v[v.len() - 1];
        if b != 48 {
            assert(trim_zeros(v@) == v@);
            return ;
        }
        let ghost prev = v@;
        v.pop();
        assert(v@ =~= prev.drop_last());
    }
}

/// Relies on `String::from_utf8`: ASCII bytes are valid UTF-8 and decode to
/// one `char` per byte, so the resulting string's characters are exactly the
/// bytes read as characters.
#[verifier::external_body]
pub fn ascii_to_string(v: Vec<u8>) -> (r: String)
    requires
        is_ascii_seq(v@),
    ensures
        r@ == v@.map_values(|b: u8| b as char),
{
    match String::from_utf8(v) {
        Ok(s) => s,
        Err(_) => String::new(),
    }
}

} // verus!
