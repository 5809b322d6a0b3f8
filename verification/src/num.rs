//! Exact numeric helpers: parsing decimal degree tokens into nanodegrees,
//! powers of ten, and rounding division.
//!
//! A coordinate token is an optional sign, one to nine integer digits, and an
//! optional fraction introduced by `.`.  Fraction digits beyond the ninth are
//! read but do not contribute: they are below the nanodegree resolution of
//! the fixed-point model.  The nine-digit cap on the integer part is a
//! machine limit: it keeps every parsed value well inside `i64`.

use vstd::prelude::*;
use vstd::string::StrSliceExecFns;

use crate::model::NANO_PER_DEGREE;

verus! {

/// Is `c` a decimal digit?
pub open spec fn is_digit(c: char) -> bool {
    ('0' as int) <= c as int && c as int <= ('9' as int)
}

/// The numeric value of a digit character.
pub open spec fn digit_val(c: char) -> int {
    c as int - ('0' as int)
}

/// Every character of `s` is a decimal digit.
pub open spec fn all_digits(s: Seq<char>) -> bool {
    forall|i: int| 0 <= i < s.len() ==> is_digit(#[trigger] s[i])
}

/// The value of a digit string read most-significant first.
pub open spec fn digits_val(s: Seq<char>) -> int
    decreases s.len(),
{
    if s.len() == 0 {
        0
    } else {
        10 * digits_val(s.drop_last()) + digit_val(s.last())
    }
}

/// The index of the first `.` in `s`, or `s.len()` if there is none.
pub open spec fn dot_pos(s: Seq<char>) -> int
    decreases s.len(),
{
    if s.len() == 0 {
        0
    } else if s[0] == '.' {
        0
    } else {
        1 + dot_pos(s.drop_first())
    }
}

/// Ten to the `n`.
pub open spec fn pow10(n: nat) -> int
    decreases n,
{
    if n == 0 {
        1
    } else {
        10 * pow10((n - 1) as nat)
    }
}

/// One when `s` opens with a sign character, else zero.
pub open spec fn sign_len(s: Seq<char>) -> int {
    if s.len() > 0 && (s[0] == '-' || s[0] == '+') {
        1
    } else {
        0
    }
}

/// `s` without its sign character, if any.
pub open spec fn body_of(s: Seq<char>) -> Seq<char> {
    if sign_len(s) == 1 {
        s.drop_first()
    } else {
        s
    }
}

/// What a decimal degree token denotes in nanodegrees, or `None` when the
/// token is not a valid decimal of at most nine integer digits.
pub open spec fn spec_parse_decimal(s: Seq<char>) -> Option<i64> {
    let neg = s.len() > 0 && s[0] == '-';
    let body = body_of(s);
    let d = dot_pos(body);
    let int_part = body.take(d);
    let frac_part = if d < body.len() {
        body.skip(d + 1)
    } else {
        Seq::<char>::empty()
    };
    if 1 <= int_part.len() && int_part.len() <= 9 && all_digits(int_part) && all_digits(frac_part) {
        let kept = if frac_part.len() > 9 {
            frac_part.take(9)
        } else {
            frac_part
        };
        let mag = digits_val(int_part) * (NANO_PER_DEGREE as int) + digits_val(kept) * pow10(
            (9 - kept.len()) as nat,
        );
        Some((if neg { -mag } else { mag }) as i64)
    } else {
        None
    }
}

/// `pow10` is positive.
pub proof fn lemma_pow10_pos(n: nat)
    ensures
        pow10(n) >= 1,
    decreases n,
{
    if n > 0 {
        lemma_pow10_pos((n - 1) as nat);
    }
}

/// `pow10` is monotone in its argument.
pub proof fn lemma_pow10_mono(m: nat, n: nat)
    requires
        m <= n,
    ensures
        pow10(m) <= pow10(n),
    decreases n,
{
    if m < n {
        lemma_pow10_mono(m, (n - 1) as nat);
        lemma_pow10_pos((n - 1) as nat);
    }
}

/// A string of `n` digits denotes a value in `[0, 10^n)`.
pub proof fn lemma_digits_val_bound(s: Seq<char>)
    requires
        all_digits(s),
    ensures
        0 <= digits_val(s) < pow10(s.len()),
    decreases s.len(),
{
    if s.len() > 0 {
        assert(all_digits(s.drop_last())) by {
            assert(forall|i: int| 0 <= i < s.len() - 1 ==> #[trigger] s.drop_last()[i] == s[i]);
        }
        lemma_digits_val_bound(s.drop_last());
        assert(is_digit(s.last()));
    }
}

/// `dot_pos` lies between zero and the length.
proof fn lemma_dot_pos_range(s: Seq<char>)
    ensures
        0 <= dot_pos(s) <= s.len(),
    decreases s.len(),
{
    if s.len() > 0 && s[0] != '.' {
        lemma_dot_pos_range(s.drop_first());
    }
}

/// When the first dot falls inside `s`, that character really is a dot.
proof fn lemma_dot_pos_hit(s: Seq<char>)
    ensures
        dot_pos(s) < s.len() ==> s[dot_pos(s)] == '.',
    decreases s.len(),
{
    if s.len() > 0 && s[0] != '.' {
        lemma_dot_pos_hit(s.drop_first());
        lemma_dot_pos_range(s.drop_first());
    }
}

/// If the first `m` characters of `s` are not dots, the first dot is at `m`
/// or later.
proof fn lemma_dot_pos_lower(s: Seq<char>, m: int)
    requires
        0 <= m <= s.len(),
        forall|i: int| 0 <= i < m ==> #[trigger] s[i] != '.',
    ensures
        dot_pos(s) >= m,
    decreases m,
{
    lemma_dot_pos_range(s);
    if m > 0 {
        assert(s[0] != '.');
        assert(forall|i: int| 0 <= i < m - 1 ==> #[trigger] s.drop_first()[i] == s[i + 1]);
        lemma_dot_pos_lower(s.drop_first(), m - 1);
    }
}

/// Concrete values of the small powers of ten.
pub proof fn lemma_pow10_values()
    ensures
        pow10(0) == 1,
        pow10(1) == 10,
        pow10(2) == 100,
        pow10(3) == 1000,
        pow10(4) == 10000,
        pow10(5) == 100000,
        pow10(6) == 1000000,
        pow10(7) == 10000000,
        pow10(8) == 100000000,
        pow10(9) == 1000000000,
{
    assert(pow10(0) == 1);
    assert(pow10(1) == 10);
    assert(pow10(2) == 100);
    assert(pow10(3) == 1000);
    assert(pow10(4) == 10000);
    assert(pow10(5) == 100000);
    assert(pow10(6) == 1000000);
    assert(pow10(7) == 10000000);
    assert(pow10(8) == 100000000);
    assert(pow10(9) == 1000000000);
}

/// Ten to the `n` as an `i64`, for `n` up to nine.
pub fn pow10_i64(n: u32) -> (r: i64)
    requires
        n <= 9,
    ensures
        r as int == pow10(n as nat),
        1 <= r <= 1000000000,
{
    proof {
        lemma_pow10_values();
    }
    match n {
        0 => 1,
        1 => 10,
        2 => 100,
        3 => 1000,
        4 => 10000,
        5 => 100000,
        6 => 1000000,
        7 => 10000000,
        8 => 100000000,
        _ => 1000000000,
    }
}

/// Is the character at index `j` a decimal digit?
fn digit_at(s: &str, j: usize) -> (r: bool)
    requires
        j < s@.len(),
    ensures
        r == is_digit(s@[j as int]),
{
    let c = s.get_char(j);
    ('0' as u32) <= c as u32 && c as u32 <= ('9' as u32)
}

/// Parses a decimal degree token into signed nanodegrees.
///
/// Returns exactly what `spec_parse_decimal` denotes: `None` for anything
/// that is not an optionally signed decimal with one to nine integer digits.
#[verifier::loop_isolation(false)]
pub fn parse_decimal(s: &str) -> (r: Option<i64>)
    ensures
        r == spec_parse_decimal(s@),
{
    let n = s.unicode_len();
    let ghost sv = s@;
    let mut i: usize = 0;
    let mut neg = false;
    if n > 0 {
        let c0 = s.get_char(0);
        if c0 == '-' {
            neg = true;
            i = 1;
        } else if c0 == '+' {
            i = 1;
        }
    }
    proof {
        assert(i == sign_len(sv));
        assert(neg == (sv.len() > 0 && sv[0] == '-'));
    }
    let ghost body = body_of(sv);
    proof {
        assert(body.len() == n - i);
        assert(forall|k: int| 0 <= k < body.len() ==> #[trigger] body[k] == sv[k + i]);
    }
    // Integer part: at most nine digits before a dot or the end.
    let mut j = i;
    let mut acc: i64 = 0;
    while j < n && j - i < 9 && digit_at(s, j)
        invariant
            i <= j <= n,
            j - i <= 9,
            forall|k: int| i <= k < j ==> is_digit(#[trigger] sv[k]),
            acc == digits_val(body.take(j - i)),
            0 <= acc < pow10((j - i) as nat),
        decreases n - j,
    {
        let c = s.get_char(j);
        let d = c as u32 - ('0' as u32);
        proof {
            assert(is_digit(sv[j as int]));
            assert(body.take(j - i + 1).drop_last() =~= body.take(j - i));
            assert(body.take(j - i + 1).last() == sv[j as int]);
            assert(digit_val(sv[j as int]) == d as int);
            lemma_pow10_values();
            lemma_pow10_mono(((j - i) as nat) + 1, 9);
        }
        acc = acc * 10 + (d as i64);
        j = j + 1;
    }
    proof {
        lemma_pow10_values();
        lemma_pow10_mono((j - i) as nat, 9);
    }
    if j == i {
        // No leading digit: the token has an empty integer part or starts
        // with something other than a digit.
        proof {
            lemma_no_int_part(sv);
        }
        return None;
    }
    if j < n {
        let c = s.get_char(j);
        if !(c == '.') {
            // Either a tenth digit or a stray character: both invalid.
            proof {
                lemma_int_part_invalid(sv, i as int, j as int);
            }
            return None;
        }
        // Fraction after the dot.
        proof {
            lemma_digits_prefix_no_dot(sv, i as int, j as int);
            lemma_dot_pos_exact_at(body, j - i);
        }
        let mut k = j + 1;
        let mut fcount: u32 = 0;
        let mut facc: i64 = 0;
        while k < n && digit_at(s, k)
            invariant
                j + 1 <= k <= n,
                forall|q: int| j < q < k ==> is_digit(#[trigger] sv[q]),
                fcount == if k - j - 1 <= 9 { k - j - 1 } else { 9int },
                facc == digits_val(sv.subrange(j + 1, j + 1 + fcount)),
                0 <= facc < pow10(fcount as nat),
                fcount <= 9,
            decreases n - k,
        {
            let c2 = s.get_char(k);
            let cu = c2 as u32;
            if fcount < 9 {
                let d = cu - ('0' as u32);
                proof {
                    assert(is_digit(sv[k as int]));
                    assert(sv.subrange(j + 1, j + 1 + fcount + 1).drop_last() =~= sv.subrange(
                        j + 1,
                        j + 1 + fcount,
                    ));
                    assert(sv.subrange(j + 1, j + 1 + fcount + 1).last() == sv[k as int]);
                    assert(digit_val(sv[k as int]) == d as int);
                    lemma_pow10_values();
                    lemma_pow10_mono((fcount + 1) as nat, 9);
                }
                facc = facc * 10 + (d as i64);
                fcount = fcount + 1;
            }
            k = k + 1;
        }
        if k < n {
            // A non-digit inside the fraction invalidates the token.
            proof {
                lemma_frac_invalid(sv, i as int, j as int, k as int);
            }
            return None;
        }
        let scale = pow10_i64(9 - fcount);
        proof {
            lemma_pow10_values();
            lemma_frac_valid(sv, i as int, j as int, fcount as int);
            assert(body.take(j - i) =~= sv.subrange(i as int, j as int));
            assert(acc <= 999999999);
            assert(facc * scale <= 999999999 * 1000000000) by (nonlinear_arith)
                requires
                    0 <= facc <= 999999999,
                    1 <= scale <= 1000000000,
            ;
            assert(facc * scale >= 0) by (nonlinear_arith)
                requires
                    0 <= facc,
                    1 <= scale,
            ;
        }
        let mag = acc * NANO_PER_DEGREE + facc * scale;
        if neg {
            Some(-mag)
        } else {
            Some(mag)
        }
    } else {
        // Digits to the very end: an integer token with no fraction.
        proof {
            lemma_digits_prefix_no_dot(sv, i as int, j as int);
            lemma_dot_pos_lower(body, (j - i) as int);
            lemma_dot_pos_range(body);
            assert(dot_pos(body) == body.len());
            assert(body.take(body.len() as int) =~= body);
            assert(body.take(j - i) =~= body);
        }
        let mag = acc * NANO_PER_DEGREE;
        if neg {
            Some(-mag)
        } else {
            Some(mag)
        }
    }
}

/// Digits at positions `i..j` of `sv` mean the first `j - i` characters of
/// the body hold no dot.
proof fn lemma_digits_prefix_no_dot(sv: Seq<char>, i: int, j: int)
    requires
        i == sign_len(sv),
        i <= j <= sv.len(),
        forall|k: int| i <= k < j ==> is_digit(#[trigger] sv[k]),
    ensures
        forall|k: int| 0 <= k < j - i ==> #[trigger] body_of(sv)[k] != '.',
{
    let body = body_of(sv);
    assert forall|k: int| 0 <= k < j - i implies #[trigger] body[k] != '.' by {
        assert(body[k] == sv[k + i]);
        assert(is_digit(sv[k + i]));
    }
}

/// When the dot-free prefix ends at a dot, `dot_pos` is exactly there.
proof fn lemma_dot_pos_exact_at(s: Seq<char>, m: int)
    requires
        0 <= m < s.len(),
        forall|k: int| 0 <= k < m ==> #[trigger] s[k] != '.',
        s[m] == '.',
    ensures
        dot_pos(s) == m,
{
    lemma_dot_pos_lower(s, m);
    lemma_dot_pos_hit(s);
    lemma_dot_pos_range(s);
    if dot_pos(s) > m {
        assert(s[m] != '.') by {
            assert(forall|k: int| 0 <= k < dot_pos(s) ==> #[trigger] s[k] != '.') by {
                lemma_dot_pos_prefix_free(s);
            }
        }
    }
}

/// No dot occurs before `dot_pos`.
proof fn lemma_dot_pos_prefix_free(s: Seq<char>)
    ensures
        forall|k: int| 0 <= k < dot_pos(s) ==> #[trigger] s[k] != '.',
    decreases s.len(),
{
    if s.len() > 0 && s[0] != '.' {
        lemma_dot_pos_prefix_free(s.drop_first());
        lemma_dot_pos_range(s.drop_first());
        assert forall|k: int| 0 <= k < dot_pos(s) implies #[trigger] s[k] != '.' by {
            if k > 0 {
                assert(0 <= k - 1 < dot_pos(s.drop_first()));
                assert(s.drop_first()[k - 1] == s[k]);
            }
        }
    }
}

/// When no digit opens the body, the token is invalid.
proof fn lemma_no_int_part(sv: Seq<char>)
    requires
        sign_len(sv) == sv.len() || !is_digit(sv[sign_len(sv)]),
    ensures
        spec_parse_decimal(sv) is None,
{
    let body = body_of(sv);
    let d = dot_pos(body);
    lemma_dot_pos_range(body);
    let int_part = body.take(d);
    if body.len() == 0 {
        assert(int_part.len() == 0);
    } else {
        assert(body[0] == sv[sign_len(sv)]);
        if body[0] == '.' {
            assert(d == 0);
            assert(int_part.len() == 0);
        } else if d == 0 {
            assert(int_part.len() == 0);
        } else {
            assert(int_part[0] == body[0]);
            assert(!is_digit(int_part[0]));
            assert(!all_digits(int_part));
        }
    }
}

/// A tenth leading digit, or a stray character after the digits, makes the
/// token invalid.
proof fn lemma_int_part_invalid(sv: Seq<char>, i: int, j: int)
    requires
        i == sign_len(sv),
        i < j < sv.len(),
        j - i <= 9,
        forall|k: int| i <= k < j ==> is_digit(#[trigger] sv[k]),
        sv[j] != '.',
        j - i < 9 ==> !is_digit(sv[j]),
    ensures
        spec_parse_decimal(sv) is None,
{
    let body = body_of(sv);
    lemma_digits_prefix_no_dot(sv, i, j);
    lemma_dot_pos_lower(body, j - i);
    lemma_dot_pos_range(body);
    lemma_dot_pos_hit(body);
    let d = dot_pos(body);
    let int_part = body.take(d);
    assert(body[j - i] == sv[j]);
    // sv[j] is not a dot, so the first dot lies strictly past j - i.
    assert(d != j - i);
    if j - i < 9 {
        assert(int_part[j - i] == body[j - i]);
        assert(!is_digit(int_part[j - i]));
        assert(!all_digits(int_part));
    } else {
        assert(int_part.len() >= 10);
    }
}

/// A non-digit inside the fraction makes the token invalid.
proof fn lemma_frac_invalid(sv: Seq<char>, i: int, j: int, k: int)
    requires
        i == sign_len(sv),
        i < j < k < sv.len(),
        1 <= j - i <= 9,
        forall|q: int| i <= q < j ==> is_digit(#[trigger] sv[q]),
        sv[j] == '.',
        forall|q: int| j < q < k ==> is_digit(#[trigger] sv[q]),
        !is_digit(sv[k]),
    ensures
        spec_parse_decimal(sv) is None,
{
    let body = body_of(sv);
    lemma_digits_prefix_no_dot(sv, i, j);
    lemma_dot_pos_exact_at(body, j - i);
    let d = dot_pos(body);
    let frac_part = body.skip(d + 1);
    assert(frac_part[k - j - 1] == body[k - i]);
    assert(body[k - i] == sv[k]);
    assert(!all_digits(frac_part));
}

/// A fully valid fractional token: ties the loop's accumulators to the
/// specification's decomposition of the string.
proof fn lemma_frac_valid(sv: Seq<char>, i: int, j: int, fcount: int)
    requires
        i == sign_len(sv),
        i < j < sv.len(),
        1 <= j - i <= 9,
        forall|q: int| i <= q < j ==> is_digit(#[trigger] sv[q]),
        sv[j] == '.',
        forall|q: int| j < q < sv.len() ==> is_digit(#[trigger] sv[q]),
        fcount == if sv.len() - j - 1 <= 9 { sv.len() - j - 1 } else { 9int },
    ensures
        dot_pos(body_of(sv)) == j - i,
        body_of(sv).take(j - i) =~= sv.subrange(i, j),
        all_digits(body_of(sv).take(j - i)),
        ({
            let body = body_of(sv);
            let frac_part = body.skip(j - i + 1);
            let kept = if frac_part.len() > 9 {
                frac_part.take(9)
            } else {
                frac_part
            };
            all_digits(frac_part) && kept =~= sv.subrange(j + 1, j + 1 + fcount) && kept.len()
                == fcount
        }),
{
    let body = body_of(sv);
    lemma_digits_prefix_no_dot(sv, i, j);
    lemma_dot_pos_exact_at(body, j - i);
    assert(body.take(j - i) =~= sv.subrange(i, j));
    let frac_part = body.skip(j - i + 1);
    assert(forall|q: int| 0 <= q < frac_part.len() ==> #[trigger] frac_part[q] == sv[q + j + 1]);
    assert(forall|q: int| 0 <= q < frac_part.len() ==> is_digit(#[trigger] frac_part[q]));
    let kept = if frac_part.len() > 9 {
        frac_part.take(9)
    } else {
        frac_part
    };
    assert(kept =~= sv.subrange(j + 1, j + 1 + fcount));
}

/// Division by a positive divisor, rounding half away from zero.
pub open spec fn spec_round_div(a: int, b: int) -> int {
    if a >= 0 {
        (a + b / 2) / b
    } else {
        -((-a + b / 2) / b)
    }
}

/// Computes `spec_round_div` on `i128` values well inside the type's range.
pub fn round_div_i128(a: i128, b: i128) -> (r: i128)
    requires
        0 < b,
        a < 0x7fff_ffff_ffff_ffff_ffff_ffff_ffff_ffff - b,
        -0x7fff_ffff_ffff_ffff_ffff_ffff_ffff_ffff + b < a,
    ensures
        r as int == spec_round_div(a as int, b as int),
{
    if a >= 0 {
        (a + b / 2) / b
    } else {
        let q = ((-a) + b / 2) / b;
        -q
    }
}

} // verus!
