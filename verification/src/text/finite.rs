//! Which decimal texts denote a finite floating-point number.

use vstd::prelude::*;
use crate::text::ascii::is_digit;
use crate::text::chars::chars_of;
use crate::text::float::{digits_end, is_number_text, is_sign, number_text, skip_digits};
use crate::text::number::{all_digits, digits_value, lemma_digits_prefix};
use crate::text::search::push_all;

verus! {

pub open spec fn pow10(n: nat) -> nat
    decreases n,
{
    if n == 0 {
        1
    } else {
        10 * pow10((n - 1) as nat)
    }
}

/// The least magnitude that rounds to infinity in single precision: half way
/// between the greatest finite number and the next power of two.
pub open spec fn single_bound() -> Seq<char> {
    "340282356779733661637539395458142568448"@
}

/// The least magnitude that rounds to infinity in double precision.
pub open spec fn double_bound() -> Seq<char> {
    "179769313486231580793728971405303415079934132710037826936173778980444968292764750946649017977587207096330286416692887910946555547851940402630657488671505820681908902000708383676273854845817711531764475730270069855571366959622842914819860834936475292719074168444365510704342711559699508093042880177904174497792"@
}

/// The position behind the digits and the point of a number text.
pub open spec fn mantissa_end(t: Seq<char>) -> int {
    let a = digits_end(t, 0);
    if a < t.len() && t[a] == '.' {
        digits_end(t, a + 1)
    } else {
        a
    }
}

/// The digits of a number text, without the point.
pub open spec fn mantissa_digits(t: Seq<char>) -> Seq<char> {
    let a = digits_end(t, 0);
    if a < t.len() && t[a] == '.' {
        t.take(a) + t.subrange(a + 1, digits_end(t, a + 1))
    } else {
        t.take(a)
    }
}

/// The number of digits behind the point.
pub open spec fn fraction_len(t: Seq<char>) -> nat {
    let a = digits_end(t, 0);
    if a < t.len() && t[a] == '.' {
        (digits_end(t, a + 1) - a - 1) as nat
    } else {
        0
    }
}

/// The value of the exponent at position `k`.
pub open spec fn exponent_value(t: Seq<char>, k: int) -> int {
    if k >= t.len() {
        0
    } else if k + 1 < t.len() && t[k + 1] == '-' {
        -(digits_value(t.skip(k + 2)) as int)
    } else if k + 1 < t.len() && t[k + 1] == '+' {
        digits_value(t.skip(k + 2)) as int
    } else {
        digits_value(t.skip(k + 1)) as int
    }
}

/// The power of ten that scales the digits.
pub open spec fn scale(t: Seq<char>) -> int {
    exponent_value(t, mantissa_end(t)) - fraction_len(t)
}

/// `m` times ten to the power `e` is less than the bound.
pub open spec fn below_bound(bound: Seq<char>, m: nat, e: int) -> bool {
    if e >= 0 {
        m * pow10(e as nat) < digits_value(bound)
    } else {
        m < digits_value(bound) * pow10((-e) as nat)
    }
}

/// The text denotes a number below the bound.
pub open spec fn is_bounded_text(bound: Seq<char>, s: Seq<char>) -> bool {
    let t = if s.len() > 0 && is_sign(s[0]) {
        s.skip(1)
    } else {
        s
    };
    is_number_text(t) && below_bound(bound, digits_value(mantissa_digits(t)), scale(t))
}

/// The text denotes a finite single-precision number.
pub open spec fn is_single_text(s: Seq<char>) -> bool {
    is_bounded_text(single_bound(), s)
}

/// The text denotes a finite double-precision number.
pub open spec fn is_double_text(s: Seq<char>) -> bool {
    is_bounded_text(double_bound(), s)
}

proof fn lemma_pow10_positive(n: nat)
    ensures
        pow10(n) > 0,
    decreases n,
{
    if n > 0 {
        lemma_pow10_positive((n - 1) as nat);
    }
}

proof fn lemma_pow10_adds(a: nat, b: nat)
    ensures
        pow10(a + b) == pow10(a) * pow10(b),
    decreases a,
{
    if a > 0 {
        lemma_pow10_adds((a - 1) as nat, b);
        let x = pow10((a - 1) as nat);
        let y = pow10(b);
        assert(pow10(a + b) == 10 * (x * y));
        assert(10 * (x * y) == (10 * x) * y) by (nonlinear_arith);
    } else {
        assert(1 * pow10(b) == pow10(b));
    }
}

proof fn lemma_pow10_monotone(a: nat, b: nat)
    requires
        a <= b,
    ensures
        pow10(a) <= pow10(b),
    decreases b - a,
{
    if a < b {
        lemma_pow10_positive((b - 1) as nat);
        lemma_pow10_monotone(a, (b - 1) as nat);
    }
}

/// A row of `n` digits denotes a number below ten to the power `n`.
proof fn lemma_digits_bound(s: Seq<char>)
    requires
        all_digits(s),
    ensures
        digits_value(s) < pow10(s.len()),
    decreases s.len(),
{
    if s.len() > 0 {
        assert(all_digits(s.drop_last())) by {
            assert forall|i: int| 0 <= i < s.drop_last().len() implies is_digit(
                #[trigger] s.drop_last()[i],
            ) by {
                assert(is_digit(s[i]));
            }
        }
        assert(is_digit(s.last()));
        lemma_digits_bound(s.drop_last());
    }
}

/// Without a leading zero it is at least ten to the power `n - 1`.
proof fn lemma_digits_lower(s: Seq<char>)
    requires
        all_digits(s),
        s.len() > 0,
        s[0] != '0',
    ensures
        pow10((s.len() - 1) as nat) <= digits_value(s),
    decreases s.len(),
{
    assert(is_digit(s[0]));
    assert(is_digit(s.last()));
    if s.len() == 1 {
        assert(digits_value(s.drop_last()) == 0);
    } else {
        assert(all_digits(s.drop_last())) by {
            assert forall|i: int| 0 <= i < s.drop_last().len() implies is_digit(
                #[trigger] s.drop_last()[i],
            ) by {
                assert(is_digit(s[i]));
            }
        }
        lemma_digits_lower(s.drop_last());
    }
}

/// The value of a row of digits, cut in two.
proof fn lemma_digits_split(s: Seq<char>, k: int)
    requires
        0 <= k <= s.len(),
        all_digits(s),
    ensures
        digits_value(s) == digits_value(s.take(k)) * pow10((s.len() - k) as nat) + digits_value(
            s.skip(k),
        ),
        all_digits(s.take(k)),
        all_digits(s.skip(k)),
    decreases s.len() - k,
{
    assert forall|i: int| 0 <= i < k implies is_digit(#[trigger] s.take(k)[i]) by {
        assert(is_digit(s[i]));
    }
    assert forall|i: int| 0 <= i < s.len() - k implies is_digit(#[trigger] s.skip(k)[i]) by {
        assert(is_digit(s[i + k]));
    }
    if k == s.len() {
        assert(s.take(k) =~= s);
        assert(s.skip(k) =~= Seq::<char>::empty());
        assert(digits_value(s) * 1 == digits_value(s));
    } else {
        let front = s.drop_last();
        assert(all_digits(front)) by {
            assert forall|i: int| 0 <= i < front.len() implies is_digit(#[trigger] front[i]) by {
                assert(is_digit(s[i]));
            }
        }
        assert(is_digit(s.last()));
        lemma_digits_split(front, k);
        assert(front.take(k) =~= s.take(k));
        assert(front.skip(k) =~= s.skip(k).drop_last());
        assert(s.skip(k).last() == s.last());
        let a = digits_value(s.take(k));
        let p = pow10((front.len() - k) as nat);
        let b = digits_value(s.skip(k).drop_last());
        assert((a * p + b) * 10 == a * (10 * p) + b * 10) by (nonlinear_arith);
    }
}

/// Leading zeros do not count.
proof fn lemma_leading_zero(s: Seq<char>)
    requires
        all_digits(s),
        s.len() > 0,
        s[0] == '0',
    ensures
        digits_value(s.skip(1)) == digits_value(s),
{
    lemma_digits_split(s, 1);
    assert(s.take(1).drop_last() =~= Seq::<char>::empty());
    assert(digits_value(s.take(1)) == 0) by {
        assert(digits_value(s.take(1).drop_last()) == 0);
        assert(s.take(1).last() == '0');
    }
    assert(0 * pow10((s.len() - 1) as nat) == 0);
}

/// A bound is a row of digits that does not begin with a zero.
pub open spec fn is_bound(bound: Seq<char>) -> bool {
    all_digits(bound) && bound.len() > 0 && bound[0] != '0'
}

/// More integer digits than the bound has are too many, fewer are not.
proof fn lemma_by_size(bound: Seq<char>, digits: Seq<char>, e: int)
    requires
        is_bound(bound),
        all_digits(digits),
        digits.len() > 0,
        digits[0] != '0',
    ensures
        digits.len() + e > bound.len() ==> !below_bound(bound, digits_value(digits), e),
        digits.len() + e < bound.len() ==> below_bound(bound, digits_value(digits), e),
{
    let n = digits.len();
    let len = bound.len();
    let m = digits_value(digits);
    let t = digits_value(bound);
    lemma_digits_bound(bound);
    lemma_digits_lower(bound);
    lemma_digits_bound(digits);
    lemma_digits_lower(digits);
    if n + e > len {
        if e >= 0 {
            let p = pow10(e as nat);
            lemma_pow10_adds((n - 1) as nat, e as nat);
            lemma_pow10_monotone(len, (n - 1 + e) as nat);
            let low = pow10((n - 1) as nat);
            assert(low * p <= m * p) by (nonlinear_arith)
                requires
                    low <= m,
            ;
        } else {
            let p = pow10((-e) as nat);
            let high = pow10(len);
            lemma_pow10_adds(len, (-e) as nat);
            lemma_pow10_monotone((len - e) as nat, (n - 1) as nat);
            assert(t * p <= high * p) by (nonlinear_arith)
                requires
                    t <= high,
            ;
        }
    }
    if n + e < len {
        if e >= 0 {
            let p = pow10(e as nat);
            lemma_pow10_positive(e as nat);
            lemma_pow10_adds(n, e as nat);
            lemma_pow10_monotone((n + e) as nat, (len - 1) as nat);
            let high = pow10(n);
            assert(m * p < high * p) by (nonlinear_arith)
                requires
                    m < high,
                    p > 0,
            ;
        } else {
            let p = pow10((-e) as nat);
            let low = pow10((len - 1) as nat);
            lemma_pow10_positive((-e) as nat);
            lemma_pow10_adds((len - 1) as nat, (-e) as nat);
            lemma_pow10_monotone(n, (len - 1 - e) as nat);
            assert(low * p <= t * p) by (nonlinear_arith)
                requires
                    low <= t,
            ;
        }
    }
}

/// The first `len` digits of a row, filled up with zeros.
spec fn leading_digits(digits: Seq<char>, len: nat) -> Seq<char> {
    Seq::new(
        len,
        |i: int|
            if i < digits.len() {
                digits[i]
            } else {
                '0'
            },
    )
}

proof fn lemma_zeros(s: Seq<char>)
    requires
        forall|i: int| 0 <= i < s.len() ==> #[trigger] s[i] == '0',
    ensures
        digits_value(s) == 0,
    decreases s.len(),
{
    if s.len() > 0 {
        lemma_zeros(s.drop_last());
        assert(s[s.len() - 1] == '0');
    }
}

/// With as many integer digits as the bound has, the leading digits decide.
proof fn lemma_by_digits(bound: Seq<char>, digits: Seq<char>, e: int)
    requires
        all_digits(digits),
        digits.len() + e == bound.len(),
    ensures
        below_bound(bound, digits_value(digits), e) == (digits_value(
            leading_digits(digits, bound.len()),
        ) < digits_value(bound)),
        all_digits(leading_digits(digits, bound.len())),
{
    let n = digits.len();
    let len = bound.len();
    let t = digits_value(bound);
    let lead = leading_digits(digits, len);
    assert forall|i: int| 0 <= i < lead.len() implies is_digit(#[trigger] lead[i]) by {
        if i < n {
            assert(is_digit(digits[i]));
        }
    }
    if n > len {
        lemma_digits_split(digits, len as int);
        lemma_digits_bound(digits.skip(len as int));
        assert(lead =~= digits.take(len as int));
        let p = pow10((n - len) as nat);
        let h = digits_value(digits.take(len as int));
        let r = digits_value(digits.skip(len as int));
        let m = digits_value(digits);
        assert(m == h * p + r);
        assert(-e == n - len);
        assert(h < t ==> m < t * p) by (nonlinear_arith)
            requires
                m == h * p + r,
                r < p,
        ;
        assert(h >= t ==> m >= t * p) by (nonlinear_arith)
            requires
                m == h * p + r,
                r >= 0,
        ;
    } else {
        lemma_digits_split(lead, n as int);
        assert(lead.take(n as int) =~= digits);
        assert forall|i: int| 0 <= i < lead.skip(n as int).len() implies #[trigger] lead.skip(
            n as int,
        )[i] == '0' by {
            assert(lead.skip(n as int)[i] == lead[i + n]);
        }
        lemma_zeros(lead.skip(n as int));
    }
}

/// The first digit in which two rows differ decides.
proof fn lemma_first_difference(a: Seq<char>, b: Seq<char>, i: int)
    requires
        all_digits(a),
        all_digits(b),
        a.len() == b.len(),
        0 <= i < a.len(),
        a.take(i) == b.take(i),
        a[i] < b[i],
    ensures
        digits_value(a) < digits_value(b),
{
    lemma_digits_split(a, i + 1);
    lemma_digits_split(b, i + 1);
    lemma_digits_bound(a.skip(i + 1));
    assert(a.take(i + 1).drop_last() =~= a.take(i));
    assert(b.take(i + 1).drop_last() =~= b.take(i));
    assert(is_digit(a[i]) && is_digit(b[i]));
    let p = pow10((a.len() - i - 1) as nat);
    let x = digits_value(a.take(i + 1));
    let y = digits_value(b.take(i + 1));
    let r = digits_value(a.skip(i + 1));
    let q = digits_value(b.skip(i + 1));
    assert(x + 1 <= y);
    assert(x * p + r < y * p + q) by (nonlinear_arith)
        requires
            x + 1 <= y,
            r < p,
            q >= 0,
    ;
}

/// Whether the leading digits are below the bound.
fn digits_below(bound: &[char], digits: &Vec<char>) -> (r: bool)
    requires
        all_digits(bound@),
        all_digits(digits@),
        all_digits(leading_digits(digits@, bound@.len())),
    ensures
        r == (digits_value(leading_digits(digits@, bound@.len())) < digits_value(bound@)),
{
    let ghost lead = leading_digits(digits@, bound@.len());
    let mut i: usize = 0;
    while i < bound.len()
        invariant
            i <= bound@.len(),
            lead == leading_digits(digits@, bound@.len()),
            all_digits(bound@),
            all_digits(lead),
            forall|j: int| 0 <= j < i ==> lead[j] == bound@[j],
        decreases bound@.len() - i,
    {
        let d: char = if i < digits.len() {
            digits[i]
        } else {
            '0'
        };
        assert(d == lead[i as int]);
        assert(lead.take(i as int) =~= bound@.take(i as int));
        if d < bound[i] {
            proof {
                lemma_first_difference(lead, bound@, i as int);
            }
            return true;
        }
        if d > bound[i] {
            proof {
                lemma_first_difference(bound@, lead, i as int);
            }
            return false;
        }
        i += 1;
    }
    assert(lead =~= bound@);
    false
}

/// The magnitude of the exponent at position `from`, capped.
fn exponent_magnitude(t: &[char], from: usize) -> (r: i128)
    requires
        from <= t@.len(),
        all_digits(t@.skip(from as int)),
    ensures
        r == (if digits_value(t@.skip(from as int)) < 0x4_0000_0000_0000_0000 {
            digits_value(t@.skip(from as int)) as int
        } else {
            0x4_0000_0000_0000_0000
        }),
{
    let ghost digits = t@.skip(from as int);
    let mut value: i128 = 0;
    let mut i: usize = from;
    assert(digits.take(0) =~= Seq::<char>::empty());
    while i < t.len()
        invariant
            from <= i <= t@.len(),
            digits == t@.skip(from as int),
            all_digits(digits),
            value == digits_value(digits.take(i - from)),
            0 <= value < 0x4_0000_0000_0000_0000,
        decreases t@.len() - i,
    {
        assert(digits[i - from] == t@[i as int]);
        assert(is_digit(digits[i - from]));
        assert(digits.take(i - from + 1).drop_last() =~= digits.take(i - from));
        value = value * 10 + (t[i] as u32 as i128 - 48);
        i += 1;
        if value >= 0x4_0000_0000_0000_0000 {
            proof {
                lemma_digits_prefix(digits, i - from);
            }
            return 0x4_0000_0000_0000_0000;
        }
    }
    assert(digits.take(digits.len() as int) =~= digits);
    value
}

proof fn lemma_digits_end(s: Seq<char>, k: int)
    requires
        0 <= k <= s.len(),
    ensures
        k <= digits_end(s, k) <= s.len(),
        forall|j: int| k <= j < digits_end(s, k) ==> is_digit(#[trigger] s[j]),
    decreases s.len() - k,
{
    if k < s.len() && is_digit(s[k]) {
        lemma_digits_end(s, k + 1);
    }
}

/// Whether a number text denotes a number below the bound.
#[verifier::rlimit(60)]
#[verifier::spinoff_prover]
fn number_is_below(bound: &[char], t: &[char]) -> (r: bool)
    requires
        is_bound(bound@),
        bound@.len() <= 1000,
        is_number_text(t@),
    ensures
        r == below_bound(bound@, digits_value(mantissa_digits(t@)), scale(t@)),
{
    let n: usize = t.len();
    proof {
        lemma_digits_end(t@, 0);
    }
    let a: usize = skip_digits(t, 0);
    let point: bool = a < n && t[a] == '.';
    proof {
        if point {
            lemma_digits_end(t@, a + 1);
        }
    }
    let b: usize = if point {
        skip_digits(t, a + 1)
    } else {
        a
    };
    let fraction: i128 = if point {
        (b - a - 1) as i128
    } else {
        0
    };
    let mut all: Vec<char> = Vec::new();
    push_all(&mut all, vstd::slice::slice_subrange(t, 0, a));
    if point {
        push_all(&mut all, vstd::slice::slice_subrange(t, a + 1, b));
    }
    assert(all@ =~= mantissa_digits(t@));
    assert(all_digits(all@)) by {
        assert forall|i: int| 0 <= i < all@.len() implies is_digit(#[trigger] all@[i]) by {
            if i < a {
                assert(is_digit(t@[i]));
            } else {
                assert(is_digit(t@[i + 1]));
            }
        }
    }
    let negative: bool = b < n && b + 1 < n && t[b + 1] == '-';
    let from: usize = if b >= n {
        n
    } else if b + 1 < n && (t[b + 1] == '-' || t[b + 1] == '+') {
        b + 2
    } else {
        b + 1
    };
    assert(all_digits(t@.skip(from as int))) by {
        if b < n {
            lemma_digits_end(t@, from as int);
            assert forall|i: int| 0 <= i < n - from implies is_digit(
                #[trigger] t@.skip(from as int)[i],
            ) by {
                assert(is_digit(t@[i + from]));
            }
        }
    }
    let magnitude: i128 = exponent_magnitude(t, from);
    proof {
        if b >= n {
            assert(t@.skip(from as int) =~= Seq::<char>::empty());
        }
    }
    let exponent_capped: i128 = if negative {
        -magnitude
    } else {
        magnitude
    };
    let mut zeros: usize = 0;
    assert(all@.skip(0) =~= all@);
    while zeros < all.len() && all[zeros] == '0'
        invariant
            zeros <= all@.len(),
            all_digits(all@),
            all_digits(all@.skip(zeros as int)),
            digits_value(all@.skip(zeros as int)) == digits_value(all@),
        decreases all@.len() - zeros,
    {
        proof {
            lemma_leading_zero(all@.skip(zeros as int));
            assert(all@.skip(zeros as int).skip(1) =~= all@.skip(zeros + 1));
            lemma_digits_split(all@, zeros + 1);
        }
        zeros += 1;
    }
    if zeros == all.len() {
        assert(all@.skip(zeros as int) =~= Seq::<char>::empty());
        proof {
            lemma_pow10_positive((-scale(t@)) as nat);
            let p = pow10((-scale(t@)) as nat);
            assert(0 * pow10(scale(t@) as nat) == 0);
            lemma_digits_lower(bound@);
            lemma_pow10_positive((bound@.len() - 1) as nat);
            let t = digits_value(bound@);
            assert(0 < t * p) by (nonlinear_arith)
                requires
                    p > 0,
                    t > 0,
            ;
        }
        return true;
    }
    let digits: Vec<char> = {
        let mut v: Vec<char> = Vec::new();
        push_all(&mut v, vstd::slice::slice_subrange(all.as_slice(), zeros, all.len()));
        v
    };
    assert(digits@ =~= all@.skip(zeros as int));
    let size: i128 = digits.len() as i128 - fraction + exponent_capped;
    proof {
        lemma_by_size(bound@, digits@, scale(t@));
    }
    if size > bound.len() as i128 {
        return false;
    }
    if size < bound.len() as i128 {
        return true;
    }
    proof {
        lemma_by_digits(bound@, digits@, scale(t@));
    }
    digits_below(bound, &digits)
}

fn text_below(bound: &[char], s: &[char]) -> (r: bool)
    requires
        is_bound(bound@),
        bound@.len() <= 1000,
    ensures
        r == is_bounded_text(bound@, s@),
{
    let from: usize = if s.len() > 0 && (s[0] == '+' || s[0] == '-') {
        1
    } else {
        0
    };
    let t: &[char] = vstd::slice::slice_subrange(s, from, s.len());
    assert(t@ =~= if from == 1 {
        s@.skip(1)
    } else {
        s@
    });
    number_text(t) && number_is_below(bound, t)
}

/// Whether the text denotes a finite single-precision number.
pub fn single_text(s: &[char]) -> (r: bool)
    ensures
        r == is_single_text(s@),
{
    proof {
        reveal_strlit(
            "340282356779733661637539395458142568448",
        );
    }
    let bound: Vec<char> = chars_of(
        "340282356779733661637539395458142568448",
    );
    text_below(bound.as_slice(), s)
}

/// Whether the text denotes a finite double-precision number.
pub fn double_text(s: &[char]) -> (r: bool)
    ensures
        r == is_double_text(s@),
{
    proof {
        reveal_strlit(
            "179769313486231580793728971405303415079934132710037826936173778980444968292764750946649017977587207096330286416692887910946555547851940402630657488671505820681908902000708383676273854845817711531764475730270069855571366959622842914819860834936475292719074168444365510704342711559699508093042880177904174497792",
        );
    }
    let bound: Vec<char> = chars_of(
        "179769313486231580793728971405303415079934132710037826936173778980444968292764750946649017977587207096330286416692887910946555547851940402630657488671505820681908902000708383676273854845817711531764475730270069855571366959622842914819860834936475292719074168444365510704342711559699508093042880177904174497792",
    );
    text_below(bound.as_slice(), s)
}

} // verus!
