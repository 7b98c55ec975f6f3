//! The lenient decoder for the cue-point column. The column is declared
//! as an integer, but depending on which application wrote the row the
//! stored value may carry a decimal representation instead. Readers
//! accept either form and normalize it to the declared integer type
//! (truncating any fraction toward zero) rather than failing the row.

use vstd::prelude::*;

verus! {

/// A decimal digit.
pub open spec fn is_digit(c: char) -> bool {
    '0' <= c <= '9'
}

/// The value of one decimal digit.
pub open spec fn digit_val(c: char) -> int {
    c as int - '0' as int
}

/// Whether every character is a decimal digit.
pub open spec fn all_digits(s: Seq<char>) -> bool {
    forall|i: int| 0 <= i < s.len() ==> is_digit(#[trigger] s[i])
}

/// The value of a digit string read most-significant first.
pub open spec fn digits_val(s: Seq<char>) -> int
    decreases s.len(),
{
    if s.len() == 0 {
        0
    } else {
        digits_val(s.drop_last()) * 10 + digit_val(s.last())
    }
}

/// The index of the first `.`, or the length when there is none.
pub open spec fn dot_index(s: Seq<char>) -> int
    decreases s.len(),
{
    if s.len() == 0 {
        0
    } else if s[0] == '.' {
        0
    } else {
        1 + dot_index(s.drop_first())
    }
}

/// The mathematical reading of a stored cue point: an optional minus
/// sign, a non-empty run of digits, and optionally a `.` followed by
/// digits; the value is the signed integer part (truncation toward
/// zero). Anything else has no reading.
pub open spec fn spec_decode_cuepoint(s: Seq<char>) -> Option<int> {
    let neg = s.len() > 0 && s[0] == '-';
    let body = if neg {
        s.drop_first()
    } else {
        s
    };
    let d = dot_index(body);
    let int_part = body.take(d);
    let frac = body.skip(d + 1);
    if int_part.len() > 0 && all_digits(int_part) && (d >= body.len() || all_digits(frac)) {
        if neg {
            Some(-digits_val(int_part))
        } else {
            Some(digits_val(int_part))
        }
    } else {
        None
    }
}

/// The value of a digit string never shrinks as digits are appended,
/// and is never negative.
proof fn lemma_digits_val_monotone(s: Seq<char>, j: int)
    requires
        all_digits(s),
        0 <= j <= s.len(),
    ensures
        0 <= digits_val(s.take(j)) <= digits_val(s),
    decreases s.len() - j,
{
    if j == s.len() {
        assert(s.take(j) =~= s);
        lemma_digits_val_nonneg(s);
    } else {
        lemma_digits_val_monotone(s, j + 1);
        let t = s.take(j + 1);
        assert(t.drop_last() =~= s.take(j));
        assert(t.last() == s[j]);
        lemma_digits_val_nonneg(s.take(j));
        assert(digits_val(t) == digits_val(s.take(j)) * 10 + digit_val(s[j]));
        assert(digits_val(s.take(j)) <= digits_val(s.take(j)) * 10 + digit_val(s[j]))
            by (nonlinear_arith)
            requires
                digits_val(s.take(j)) >= 0,
                digit_val(s[j]) >= 0,
        ;
    }
}

/// A digit string's value is never negative.
proof fn lemma_digits_val_nonneg(s: Seq<char>)
    requires
        all_digits(s),
    ensures
        digits_val(s) >= 0,
    decreases s.len(),
{
    if s.len() > 0 {
        let dl = s.drop_last();
        assert(forall|i: int| 0 <= i < dl.len() ==> (#[trigger] dl[i]) == s[i]);
        lemma_digits_val_nonneg(dl);
        assert(is_digit(s.last()));
        assert(digits_val(dl) * 10 >= 0) by (nonlinear_arith)
            requires
                digits_val(dl) >= 0,
        ;
    }
}

/// Reads a stored cue-point text leniently: a plain integer or a
/// decimal form, normalized to the integer type by truncation toward
/// zero. Returns nothing when the text has no numeric reading or its
/// integer part does not fit.
#[verifier::rlimit(60)]
pub fn decode_cuepoint(raw: &str) -> (r: Option<i64>)
    ensures
        match (r, spec_decode_cuepoint(raw@)) {
            (Some(v), Some(w)) => v as int == w,
            (None, Some(w)) => w > i64::MAX as int || w < -(i64::MAX as int),
            (None, None) => true,
            (Some(_), None) => false,
        },
{
    let n = raw.unicode_len();
    let neg = n > 0 && raw.get_char(0) == '-';
    let start: usize = if neg {
        1
    } else {
        0
    };
    let ghost body = if neg {
        raw@.drop_first()
    } else {
        raw@
    };
    assert(body =~= raw@.subrange(start as int, n as int));
    assert(body.skip(0) =~= body);
    // find the first dot of the body
    let mut d: usize = 0;
    while start + d < n && raw.get_char(start + d) != '.'
        invariant
            n == raw@.len(),
            start <= 1,
            start + body.len() == n,
            body == raw@.subrange(start as int, n as int),
            0 <= d <= body.len(),
            dot_index(body) == d + dot_index(body.skip(d as int)),
            forall|k: int| 0 <= k < d ==> body[k] != '.',
        decreases n - start - d,
    {
        proof {
            let sub = body.skip(d as int);
            assert(sub[0] == body[d as int]);
            assert(body[d as int] == raw@[start + d]);
            assert(sub.drop_first() =~= body.skip(d + 1));
        }
        d += 1;
    }
    proof {
        let sub = body.skip(d as int);
        if start + d < n {
            assert(sub[0] == raw@[start + d]);
            assert(dot_index(sub) == 0);
        } else {
            assert(sub =~= Seq::<char>::empty());
        }
        assert(dot_index(body) == d as int);
    }
    let ghost int_part = body.take(d as int);
    // an empty integer part has no reading
    if d == 0 || (neg && n == 1) {
        assert(int_part.len() == 0);
        return None;
    }
    // check and accumulate the integer part
    let mut acc: i64 = 0;
    let mut j: usize = 0;
    while j < d
        invariant
            n == raw@.len(),
            start <= 1,
            start + body.len() == n,
            body == raw@.subrange(start as int, n as int),
            int_part == body.take(d as int),
            neg == (raw@.len() > 0 && raw@[0] == '-'),
            body == (if neg { raw@.drop_first() } else { raw@ }),
            dot_index(body) == d as int,
            int_part.len() == d,
            0 < d <= body.len(),
            0 <= j <= d,
            all_digits(int_part.take(j as int)),
            0 <= acc,
            acc as int == digits_val(int_part.take(j as int)),
        decreases d - j,
    {
        let c = raw.get_char(start + j);
        assert(c == int_part[j as int]);
        if !(c >= '0' && c <= '9') {
            assert(!is_digit(int_part[j as int]));
            assert(!all_digits(int_part));
            return None;
        }
        let digit: i64 = (c as u32 - '0' as u32) as i64;
        assert(digit as int == digit_val(int_part[j as int]));
        assert(0 <= digit <= 9);
        if acc > (i64::MAX - digit) / 10 {
            // the integer part cannot fit: its prefix already overflows
            proof {
                assert(acc as int * 10 + digit as int > i64::MAX as int) by (nonlinear_arith)
                    requires
                        acc as int > (i64::MAX as int - digit as int) / 10,
                        0 <= digit <= 9,
                        acc >= 0,
                ;
                let t = int_part.take(j + 1);
                assert(t.drop_last() =~= int_part.take(j as int));
                assert(t.last() == int_part[j as int]);
                assert(digits_val(t) == acc as int * 10 + digit as int);
                if all_digits(int_part) {
                    lemma_digits_val_monotone(int_part, j + 1);
                    assert(digits_val(int_part) > i64::MAX as int);
                }
            }
            return None;
        }
        proof {
            assert(acc as int * 10 + digit as int <= i64::MAX as int) by (nonlinear_arith)
                requires
                    acc as int <= (i64::MAX as int - digit as int) / 10,
                    0 <= digit <= 9,
                    acc >= 0,
            ;
            let t = int_part.take(j + 1);
            assert(t.drop_last() =~= int_part.take(j as int));
            assert(t.last() == int_part[j as int]);
        }
        acc = acc * 10 + digit;
        j += 1;
    }
    assert(int_part.take(d as int) =~= int_part);
    assert(all_digits(int_part));
    assert(acc as int == digits_val(int_part));
    // check the fraction digits, if a dot was found
    let ghost frac = body.skip(d + 1);
    if start + d < n {
        let mut k: usize = start + d + 1;
        while k < n
            invariant
                n == raw@.len(),
                start <= 1,
                start + body.len() == n,
                body == raw@.subrange(start as int, n as int),
                frac == body.skip(d + 1),
                neg == (raw@.len() > 0 && raw@[0] == '-'),
                body == (if neg { raw@.drop_first() } else { raw@ }),
                dot_index(body) == d as int,
                int_part == body.take(d as int),
                int_part.len() > 0,
                all_digits(int_part),
                start + d + 1 <= k <= n,
                forall|q: int| 0 <= q < k - start - d - 1 ==> is_digit(#[trigger] frac[q]),
            decreases n - k,
        {
            let c = raw.get_char(k);
            assert(c == frac[k - start - d - 1]);
            if !(c >= '0' && c <= '9') {
                assert(!all_digits(frac));
                return None;
            }
            k += 1;
        }
        assert(all_digits(frac));
    } else {
        assert(d >= body.len());
    }
    if neg {
        Some(-acc)
    } else {
        Some(acc)
    }
}

} // verus!
