//! Seconds written in decimal notation, read as whole milliseconds.

use vstd::prelude::*;

use crate::text::{all_digits, digit_value, digits_value, is_digit};

verus! {

/// The length of the run of digits at the start of `s`.
pub open spec fn digit_run(s: Seq<char>) -> int
    decreases s.len(),
{
    if s.len() == 0 || !is_digit(s[0]) {
        0
    } else {
        1 + digit_run(s.skip(1))
    }
}

/// Ten to the power `n`.
pub open spec fn pow10(n: nat) -> nat
    decreases n,
{
    if n == 0 {
        1
    } else {
        10 * pow10((n - 1) as nat)
    }
}

/// `m` times ten to the power `shift`, without its fraction.
pub open spec fn scaled(m: nat, shift: int) -> nat {
    if shift >= 0 {
        m * pow10(shift as nat)
    } else {
        m / pow10((-shift) as nat)
    }
}

/// The exponent that stands behind a decimal number: none at all for 0, or `e` or `E`, an
/// optional sign and digits.
pub open spec fn exponent(s: Seq<char>) -> Option<int> {
    if s.len() == 0 {
        Some(0)
    } else if s[0] == 'e' || s[0] == 'E' {
        let t = s.skip(1);
        let negative = t.len() > 0 && t[0] == '-';
        let digits = if t.len() > 0 && (t[0] == '+' || t[0] == '-') {
            t.skip(1)
        } else {
            t
        };
        if digits.len() > 0 && all_digits(digits) {
            Some(if negative { -(digits_value(digits) as int) } else { digits_value(digits) as int })
        } else {
            None
        }
    } else {
        None
    }
}

/// The whole milliseconds in the number of seconds that `s` spells, where that is at least 0 and
/// less than 60.
///
/// A number is an optional sign, digits with at most one decimal point, at least one digit, and
/// an optional exponent.
pub open spec fn parse_seconds(s: Seq<char>) -> Option<u32> {
    let negative = s.len() > 0 && s[0] == '-';
    let t = if s.len() > 0 && (s[0] == '+' || s[0] == '-') {
        s.skip(1)
    } else {
        s
    };
    let whole = digit_run(t);
    let point = whole < t.len() && t[whole] == '.';
    let u = if point {
        t.skip(whole + 1)
    } else {
        t.skip(whole)
    };
    let fraction = if point {
        digit_run(u)
    } else {
        0
    };
    let digits = t.take(whole) + u.take(fraction);
    match exponent(u.skip(fraction)) {
        Some(power) => {
            let m = digits_value(digits);
            let ms = scaled(m, power - fraction + 3);
            if digits.len() > 0 && !(negative && m > 0) && ms < 60_000 {
                Some(ms as u32)
            } else {
                None
            }
        },
        None => None,
    }
}

proof fn lemma_digit_run(s: Seq<char>)
    ensures
        0 <= digit_run(s) <= s.len(),
        forall|j: int| 0 <= j < digit_run(s) ==> is_digit(#[trigger] s[j]),
    decreases s.len(),
{
    if s.len() > 0 && is_digit(s[0]) {
        lemma_digit_run(s.skip(1));
        assert forall|j: int| 0 <= j < digit_run(s) implies is_digit(#[trigger] s[j]) by {
            if j > 0 {
                assert(s.skip(1)[j - 1] == s[j]);
            }
        }
    }
}

fn run_of_digits(s: &[char], from: usize) -> (end: usize)
    requires
        from <= s@.len(),
    ensures
        end == from + digit_run(s@.skip(from as int)),
        from <= end <= s@.len(),
        forall|j: int| from <= j < end ==> is_digit(#[trigger] s@[j]),
{
    let mut end: usize = from;
    while end < s.len() && '0' <= s[end] && s[end] <= '9'
        invariant
            from <= end <= s@.len(),
            digit_run(s@.skip(from as int)) == end - from + digit_run(s@.skip(end as int)),
            forall|j: int| from <= j < end ==> is_digit(#[trigger] s@[j]),
        decreases s@.len() - end,
    {
        assert(s@.skip(end as int).skip(1) =~= s@.skip(end + 1));
        end += 1;
    }
    end
}

/// A bound beyond which the size of an exponent makes no difference.
const HUGE: i128 = 0x1_0000_0000_0000_0000_0000_0000;

/// `x`, or the bound that it exceeds.
spec fn clamped(x: int) -> int {
    if x > HUGE {
        HUGE as int
    } else if x < -HUGE {
        -HUGE as int
    } else {
        x
    }
}

fn read_exponent(s: &[char], from: usize) -> (power: Option<i128>)
    requires
        from <= s@.len(),
    ensures
        power is Some == exponent(s@.skip(from as int)) is Some,
        power matches Some(p) ==> p == clamped(exponent(s@.skip(from as int))->0),
{
    let ghost tail = s@.skip(from as int);
    if from == s.len() {
        return Some(0);
    }
    if s[from] != 'e' && s[from] != 'E' {
        return None;
    }
    let mut i: usize = from + 1;
    assert(tail.skip(1) =~= s@.skip(i as int));
    let mut negative = false;
    if i < s.len() && (s[i] == '+' || s[i] == '-') {
        negative = s[i] == '-';
        i += 1;
    }
    let start: usize = i;
    let ghost digits = s@.skip(start as int);
    assert(start == from + 2 ==> tail.skip(1).skip(1) =~= digits);
    if start == s.len() {
        return None;
    }
    let mut value: i128 = 0;
    assert(digits.take(0) =~= Seq::<char>::empty());
    while i < s.len()
        invariant
            start <= i <= s@.len(),
            digits == s@.skip(start as int),
            digits.len() > 0,
            tail == s@.skip(from as int),
            tail.len() > 0,
            tail[0] == 'e' || tail[0] == 'E',
            ({
                let t = tail.skip(1);
                digits == if t.len() > 0 && (t[0] == '+' || t[0] == '-') {
                    t.skip(1)
                } else {
                    t
                }
            }),
            forall|j: int| 0 <= j < i - start ==> is_digit(#[trigger] digits[j]),
            0 <= value <= HUGE,
            value < HUGE ==> value == digits_value(digits.take(i - start)),
            value == HUGE ==> digits_value(digits.take(i - start)) >= HUGE,
        decreases s@.len() - i,
    {
        let c = s[i];
        assert(digits[i - start] == c);
        if c < '0' || c > '9' {
            assert(!is_digit(digits[i - start]));
            return None;
        }
        let ghost longer = digits.take(i + 1 - start);
        assert(longer.drop_last() =~= digits.take(i - start));
        assert(digits_value(longer) == digits_value(digits.take(i - start)) * 10 + digit_value(c));
        value = value * 10 + (c as i128 - '0' as i128);
        if value > HUGE {
            value = HUGE;
        }
        i += 1;
    }
    assert(digits.take(i - start) =~= digits);
    Some(if negative { -value } else { value })
}

// How the value of a run of digits relates to powers of ten

proof fn lemma_pow10_positive(n: nat)
    ensures
        pow10(n) >= 1,
    decreases n,
{
    if n > 0 {
        lemma_pow10_positive((n - 1) as nat);
    }
}

proof fn lemma_pow10_grows(a: nat, b: nat)
    requires
        a <= b,
    ensures
        pow10(a) <= pow10(b),
    decreases b,
{
    if a < b {
        lemma_pow10_grows(a, (b - 1) as nat);
        lemma_pow10_positive((b - 1) as nat);
    }
}

proof fn lemma_pow10_adds(a: nat, b: nat)
    ensures
        pow10(a + b) == pow10(a) * pow10(b),
    decreases a,
{
    if a == 0 {
        assert(1 * pow10(b) == pow10(b)) by (nonlinear_arith);
    } else {
        lemma_pow10_adds((a - 1) as nat, b);
        let p = pow10((a - 1) as nat);
        let q = pow10(b);
        assert(10 * (p * q) == (10 * p) * q) by (nonlinear_arith);
        assert((a - 1) as nat + b == (a + b - 1) as nat);
    }
}

proof fn lemma_digits_below(s: Seq<char>)
    requires
        all_digits(s),
    ensures
        digits_value(s) < pow10(s.len()),
    decreases s.len(),
{
    if s.len() > 0 {
        assert forall|i: int| 0 <= i < s.drop_last().len() implies is_digit(#[trigger] s.drop_last()[i]) by {
            assert(s[i] == s.drop_last()[i]);
        }
        lemma_digits_below(s.drop_last());
        assert(is_digit(s[s.len() - 1]));
    }
}

proof fn lemma_digits_above(s: Seq<char>)
    requires
        all_digits(s),
        s.len() > 0,
        s[0] != '0',
    ensures
        digits_value(s) >= pow10((s.len() - 1) as nat),
    decreases s.len(),
{
    if s.len() == 1 {
        assert(is_digit(s[0]));
        assert(s.drop_last() =~= Seq::<char>::empty());
        assert(digits_value(s) == digits_value(s.drop_last()) * 10 + digit_value(s.last()));
        assert(digits_value(Seq::<char>::empty()) == 0);
    } else {
        let init = s.drop_last();
        assert forall|i: int| 0 <= i < init.len() implies is_digit(#[trigger] init[i]) by {
            assert(s[i] == init[i]);
        }
        assert(init[0] == s[0]);
        lemma_digits_above(init);
    }
}

proof fn lemma_leading_zeros(s: Seq<char>, z: int)
    requires
        0 <= z <= s.len(),
        forall|j: int| 0 <= j < z ==> s[j] == '0',
    ensures
        digits_value(s) == digits_value(s.skip(z)),
    decreases s.len(),
{
    if z == s.len() {
        if s.len() > 0 {
            assert(s.drop_last().skip(z - 1) =~= Seq::<char>::empty());
            lemma_leading_zeros(s.drop_last(), z - 1);
            assert(s[s.len() - 1] == '0');
        }
        assert(s.skip(z) =~= Seq::<char>::empty());
    } else {
        lemma_leading_zeros(s.drop_last(), z);
        assert(s.skip(z).drop_last() =~= s.drop_last().skip(z));
        assert(s.skip(z).last() == s.last());
    }
}

/// One step of taking digits from the left: scaling by one power of ten more.
proof fn lemma_scaled_step(s: Seq<char>, i: int)
    requires
        all_digits(s),
        0 <= i,
    ensures
        i <= s.len() ==> scaled(digits_value(s), i - s.len()) == digits_value(s.take(i)),
        scaled(digits_value(s), i + 1 - s.len()) == scaled(digits_value(s), i - s.len()) * 10 + (if i
            < s.len() {
            digit_value(s[i])
        } else {
            0
        }),
{
    if i < s.len() {
        lemma_take_is_quotient(s, i);
        lemma_take_is_quotient(s, i + 1);
        assert(s.take(i + 1).drop_last() =~= s.take(i));
        lemma_scaled_zero(digits_value(s));
    } else {
        let n = (i - s.len()) as nat;
        let m = digits_value(s);
        assert(pow10(n + 1) == 10 * pow10(n));
        assert(m * (10 * pow10(n)) == (m * pow10(n)) * 10) by (nonlinear_arith);
        if i == s.len() {
            assert(s.take(i) =~= s);
            lemma_scaled_zero(m);
        }
    }
}

proof fn lemma_scaled_zero(m: nat)
    ensures
        scaled(m, 0) == m,
        m / pow10(0) == m,
{
    assert(pow10(0) == 1);
    assert(m * 1 == m);
}

proof fn lemma_take_is_quotient(s: Seq<char>, i: int)
    requires
        all_digits(s),
        0 <= i <= s.len(),
    ensures
        digits_value(s.take(i)) == digits_value(s) / pow10((s.len() - i) as nat),
        scaled(digits_value(s), i - s.len()) == digits_value(s.take(i)),
    decreases s.len() - i,
{
    if i == s.len() {
        assert(s.take(i) =~= s);
        lemma_scaled_zero(digits_value(s));
    } else {
        lemma_take_is_quotient(s, i + 1);
        assert(s.take(i + 1).drop_last() =~= s.take(i));
        assert(is_digit(s[i]));
        let a = digits_value(s.take(i));
        let b = digits_value(s.take(i + 1));
        assert(b == a * 10 + digit_value(s[i]));
        let m = digits_value(s);
        let p = pow10((s.len() - i - 1) as nat);
        lemma_pow10_positive((s.len() - i - 1) as nat);
        assert(pow10((s.len() - i) as nat) == 10 * p);
        vstd::arithmetic::div_mod::lemma_div_denominator(m as int, p as int, 10);
        assert(p * 10 == 10 * p);
        assert(b / 10 == a);
    }
}

/// The leading digit of a number decides how large it is once scaled.
proof fn lemma_scaled_size(s: Seq<char>, shift: int)
    requires
        all_digits(s),
        s.len() > 0,
        s[0] != '0',
    ensures
        s.len() + shift <= 0 ==> scaled(digits_value(s), shift) == 0,
        s.len() + shift > 5 ==> scaled(digits_value(s), shift) >= 60_000,
{
    let m = digits_value(s);
    let n = s.len();
    lemma_digits_below(s);
    lemma_digits_above(s);
    if n + shift <= 0 {
        lemma_pow10_grows(n, (-shift) as nat);
        vstd::arithmetic::div_mod::lemma_basic_div(m as int, pow10((-shift) as nat) as int);
    }
    if n + shift > 5 {
        assert(pow10(5) == 100_000) by {
            reveal_with_fuel(pow10, 6);
        }
        if shift >= 0 {
            lemma_pow10_adds((n - 1) as nat, shift as nat);
            assert(m * pow10(shift as nat) >= pow10((n - 1) as nat) * pow10(shift as nat))
                by (nonlinear_arith)
                requires
                    m >= pow10((n - 1) as nat),
            ;
            lemma_pow10_grows(5, ((n - 1) as nat + shift as nat) as nat);
        } else {
            let q = (-shift) as nat;
            lemma_pow10_adds((n - 1 - q) as nat, q);
            assert((n - 1 - q) as nat + q == (n - 1) as nat);
            lemma_pow10_positive(q);
            vstd::arithmetic::div_mod::lemma_div_is_ordered(
                (pow10((n - 1 - q) as nat) * pow10(q)) as int,
                m as int,
                pow10(q) as int,
            );
            vstd::arithmetic::div_mod::lemma_div_multiples_vanish(
                pow10((n - 1 - q) as nat) as int,
                pow10(q) as int,
            );
            assert(pow10(q) * pow10((n - 1 - q) as nat) == pow10((n - 1 - q) as nat) * pow10(q))
                by (nonlinear_arith);
            lemma_pow10_grows(5, (n - 1 - q) as nat);
        }
    }
}

/// `digits` times ten to the power `shift`, without its fraction, where that is below 60000.
fn read_scaled(digits: &[char], shift: i128) -> (value: Option<u32>)
    requires
        all_digits(digits@),
        -2 * HUGE <= shift <= 2 * HUGE,
    ensures
        value == if scaled(digits_value(digits@), shift as int) < 60_000 {
            Some(scaled(digits_value(digits@), shift as int) as u32)
        } else {
            None
        },
{
    let mut z: usize = 0;
    while z < digits.len() && digits[z] == '0'
        invariant
            z <= digits@.len(),
            forall|j: int| 0 <= j < z ==> digits@[j] == '0',
        decreases digits@.len() - z,
    {
        z += 1;
    }
    let ghost rest = digits@.skip(z as int);
    let ghost m = digits_value(digits@);
    proof {
        lemma_leading_zeros(digits@, z as int);
        assert forall|j: int| 0 <= j < rest.len() implies is_digit(#[trigger] rest[j]) by {
            assert(is_digit(digits@[j + z]));
        }
    }
    if z == digits.len() {
        proof {
            assert(rest =~= Seq::<char>::empty());
            if shift >= 0 {
                assert(0 * pow10(shift as nat) == 0) by (nonlinear_arith);
            } else {
                lemma_pow10_positive((-shift) as nat);
                vstd::arithmetic::div_mod::lemma_basic_div(0, pow10((-shift) as nat) as int);
            }
        }
        return Some(0);
    }
    proof {
        assert(rest[0] == digits@[z as int]);
        lemma_scaled_size(rest, shift as int);
    }
    let count: i128 = (digits.len() - z) as i128 + shift;
    if count <= 0 {
        return Some(0);
    }
    if count > 5 {
        return None;
    }
    let mut value: u32 = 0;
    let mut i: usize = 0;
    proof {
        lemma_scaled_step(rest, 0);
        assert(rest.take(0) =~= Seq::<char>::empty());
    }
    while i < count as usize
        invariant
            0 < count <= 5,
            z < digits@.len(),
            rest == digits@.skip(z as int),
            all_digits(rest),
            m == digits_value(rest),
            i <= count,
            value == scaled(m, i - rest.len()),
            i == 0 ==> value == 0,
            i == 1 ==> value < 10,
            i == 2 ==> value < 100,
            i == 3 ==> value < 1_000,
            i == 4 ==> value < 10_000,
            i == 5 ==> value < 100_000,
        decreases count - i,
    {
        proof {
            lemma_scaled_step(rest, i as int);
        }
        let next: u32 = if i < digits.len() - z {
            assert(is_digit(rest[i as int]));
            digits[z + i] as u32 - '0' as u32
        } else {
            0
        };
        value = value * 10 + next;
        i += 1;
    }
    if value < 60_000 {
        Some(value)
    } else {
        None
    }
}

/// Reads a number of seconds, and gives its whole milliseconds where it is at least 0 and less
/// than 60.
#[verifier::rlimit(40)]
pub fn read_seconds(s: &[char]) -> (ms: Option<u32>)
    ensures
        ms == parse_seconds(s@),
{
    let negative = s.len() > 0 && s[0] == '-';
    let start: usize = if s.len() > 0 && (s[0] == '+' || s[0] == '-') {
        1
    } else {
        0
    };
    let ghost t = s@.skip(start as int);
    assert(start == 0 ==> t =~= s@);
    let whole_end: usize = run_of_digits(s, start);
    let ghost whole = digit_run(t);
    let point = whole_end < s.len() && s[whole_end] == '.';
    assert(whole < t.len() ==> t[whole] == s@[whole_end as int]);
    let fraction_start: usize = if point {
        whole_end + 1
    } else {
        whole_end
    };
    let fraction_end: usize = if point {
        run_of_digits(s, fraction_start)
    } else {
        fraction_start
    };
    let ghost u = s@.skip(fraction_start as int);
    let ghost fraction = fraction_end - fraction_start;
    assert(u =~= if point {
        t.skip(whole + 1)
    } else {
        t.skip(whole)
    });
    assert(u.skip(fraction) =~= s@.skip(fraction_end as int));
    let digits = two_parts(s, start, whole_end, fraction_start, fraction_end);
    assert(digits@ =~= t.take(whole) + u.take(fraction));
    assert forall|k: int| 0 <= k < digits@.len() implies is_digit(#[trigger] digits@[k]) by {
        if k < whole {
            assert(is_digit(s@[start + k]));
        } else {
            assert(is_digit(s@[fraction_start + (k - whole)]));
        }
    }
    if digits.len() == 0 {
        return None;
    }
    let power: i128 = match read_exponent(s, fraction_end) {
        Some(power) => power,
        None => return None,
    };
    let ghost exact = exponent(u.skip(fraction))->0;
    milliseconds(digits.as_slice(), negative, fraction_end - fraction_start, power, Ghost(exact))
}

/// The characters from `a` to `b` and from `c` to `d`.
fn two_parts(s: &[char], a: usize, b: usize, c: usize, d: usize) -> (parts: Vec<char>)
    requires
        a <= b <= s@.len(),
        c <= d <= s@.len(),
    ensures
        parts@ == s@.subrange(a as int, b as int) + s@.subrange(c as int, d as int),
{
    let mut parts: Vec<char> = Vec::new();
    let mut i: usize = a;
    while i < b
        invariant
            a <= i <= b <= s@.len(),
            parts@ == s@.subrange(a as int, i as int),
        decreases b - i,
    {
        parts.push(s[i]);
        i += 1;
    }
    let mut j: usize = c;
    assert(parts@ =~= s@.subrange(a as int, b as int) + s@.subrange(c as int, c as int));
    while j < d
        invariant
            a <= b <= s@.len(),
            c <= j <= d <= s@.len(),
            parts@ == s@.subrange(a as int, b as int) + s@.subrange(c as int, j as int),
        decreases d - j,
    {
        parts.push(s[j]);
        j += 1;
        assert(parts@ =~= s@.subrange(a as int, b as int) + s@.subrange(c as int, j as int));
    }
    parts
}

/// The milliseconds in `digits` with `fraction` of them behind the decimal point, times ten to
/// the power `exact`, of which `power` is as much as makes a difference.
fn milliseconds(
    digits: &[char],
    negative: bool,
    fraction: usize,
    power: i128,
    Ghost(exact): Ghost<int>,
) -> (value: Option<u32>)
    requires
        all_digits(digits@),
        digits@.len() > 0,
        fraction <= digits@.len(),
        power == clamped(exact),
    ensures
        value == ({
            let m = digits_value(digits@);
            let ms = scaled(m, exact - fraction + 3);
            if digits@.len() > 0 && !(negative && m > 0) && ms < 60_000 {
                Some(ms as u32)
            } else {
                None
            }
        }),
{
    let shift: i128 = power - fraction as i128 + 3;
    let ms = read_scaled(digits, shift);
    let zero = all_zero(digits);
    proof {
        assert(digits@.len() == digits.len());
        if exact != power {
            if zero {
                lemma_scaled_of_zero(exact - fraction + 3);
                lemma_scaled_of_zero(shift as int);
            } else {
                lemma_clamped_scale(digits@, exact - fraction + 3);
                lemma_clamped_scale(digits@, shift as int);
            }
        }
    }
    if negative && !zero {
        None
    } else {
        ms
    }
}

fn all_zero(digits: &[char]) -> (zero: bool)
    requires
        all_digits(digits@),
    ensures
        zero == (digits_value(digits@) == 0),
{
    proof {
        lemma_zero_digits(digits@);
    }
    let mut k: usize = 0;
    while k < digits.len()
        invariant
            k <= digits@.len(),
            forall|n: int| 0 <= n < k ==> digits@[n] == '0',
            (digits_value(digits@) == 0) == (forall|n: int|
                0 <= n < digits@.len() ==> digits@[n] == '0'),
        decreases digits@.len() - k,
    {
        if digits[k] != '0' {
            assert(digits@[k as int] != '0');
            return false;
        }
        k += 1;
    }
    true
}

proof fn lemma_zero_digits(s: Seq<char>)
    requires
        all_digits(s),
    ensures
        (digits_value(s) == 0) == (forall|n: int| 0 <= n < s.len() ==> s[n] == '0'),
    decreases s.len(),
{
    if s.len() > 0 {
        let init = s.drop_last();
        assert forall|i: int| 0 <= i < init.len() implies is_digit(#[trigger] init[i]) by {
            assert(s[i] == init[i]);
        }
        lemma_zero_digits(init);
        assert(is_digit(s[s.len() - 1]));
        if digits_value(s) == 0 {
            assert forall|n: int| 0 <= n < s.len() implies s[n] == '0' by {
                if n < s.len() - 1 {
                    assert(init[n] == s[n]);
                }
            }
        }
        if forall|n: int| 0 <= n < s.len() ==> s[n] == '0' {
            assert forall|n: int| 0 <= n < init.len() implies init[n] == '0' by {
                assert(s[n] == init[n]);
            }
            assert(s[s.len() - 1] == '0');
        }
    }
}

proof fn lemma_scaled_of_zero(shift: int)
    ensures
        scaled(0, shift) == 0,
{
    if shift >= 0 {
        assert(0 * pow10(shift as nat) == 0) by (nonlinear_arith);
    } else {
        lemma_pow10_positive((-shift) as nat);
        vstd::arithmetic::div_mod::lemma_basic_div(0, pow10((-shift) as nat) as int);
    }
}

/// A number other than 0, scaled by more than its length, is too large or nothing at all.
proof fn lemma_clamped_scale(s: Seq<char>, shift: int)
    requires
        all_digits(s),
        digits_value(s) > 0,
    ensures
        shift > 5 ==> scaled(digits_value(s), shift) >= 60_000,
        shift <= -s.len() ==> scaled(digits_value(s), shift) == 0,
{
    let m = digits_value(s);
    if shift > 5 {
        lemma_pow10_grows(5, shift as nat);
        assert(pow10(5) == 100_000) by {
            reveal_with_fuel(pow10, 6);
        }
        assert(m * pow10(shift as nat) >= pow10(shift as nat)) by (nonlinear_arith)
            requires
                m >= 1,
        ;
    }
    if shift <= -s.len() {
        lemma_digits_below(s);
        lemma_pow10_grows(s.len(), (-shift) as nat);
        lemma_pow10_positive((-shift) as nat);
        if shift == 0 {
            assert(s.len() == 0);
        } else {
            vstd::arithmetic::div_mod::lemma_basic_div(m as int, pow10((-shift) as nat) as int);
        }
    }
}

proof fn lemma_digits_value_adds(a: Seq<char>, b: Seq<char>)
    ensures
        digits_value(a + b) == digits_value(a) * pow10(b.len()) + digits_value(b),
    decreases b.len(),
{
    if b.len() == 0 {
        assert(a + b =~= a);
        assert(digits_value(a) * 1 == digits_value(a));
    } else {
        lemma_digits_value_adds(a, b.drop_last());
        assert((a + b).drop_last() =~= a + b.drop_last());
        assert((a + b).last() == b.last());
        let v = digits_value(a);
        let p = pow10((b.len() - 1) as nat);
        let w = digits_value(b.drop_last());
        assert((v * p + w) * 10 == v * (10 * p) + w * 10) by (nonlinear_arith);
    }
}

proof fn lemma_run_of_digits(digits: Seq<char>, rest: Seq<char>)
    requires
        all_digits(digits),
        rest.len() > 0 ==> !is_digit(rest[0]),
    ensures
        digit_run(digits + rest) == digits.len(),
    decreases digits.len(),
{
    let s = digits + rest;
    if digits.len() > 0 {
        assert(is_digit(digits[0]));
        assert(s.skip(1) =~= digits.skip(1) + rest);
        assert forall|i: int| 0 <= i < digits.skip(1).len() implies is_digit(
            #[trigger] digits.skip(1)[i],
        ) by {
            assert(is_digit(digits[i + 1]));
        }
        lemma_run_of_digits(digits.skip(1), rest);
    } else {
        assert(s =~= rest);
    }
}

/// Seconds without a fraction are a thousand milliseconds each; each digit of a fraction of up to
/// three digits stands for a tenth of the one before it. From a minute on there are none.
pub proof fn lemma_seconds_are_decimal(whole: Seq<char>, fraction: Seq<char>)
    requires
        all_digits(whole),
        all_digits(fraction),
        whole.len() > 0,
        0 < fraction.len() <= 3,
    ensures
        parse_seconds(whole) == if digits_value(whole) < 60 {
            Some((1000 * digits_value(whole)) as u32)
        } else {
            None
        },
        parse_seconds(whole + seq!['.'] + fraction) == if digits_value(whole) < 60 {
            Some(
                (1000 * digits_value(whole) + if fraction.len() == 1 {
                    100 * digits_value(fraction)
                } else if fraction.len() == 2 {
                    10 * digits_value(fraction)
                } else {
                    digits_value(fraction)
                }) as u32,
            )
        } else {
            None
        },
{
    let none = Seq::<char>::empty();
    let v = digits_value(whole);
    let w = digits_value(fraction);
    let f = fraction.len();
    assert(is_digit(whole[0]));
    assert(pow10(0) == 1 && pow10(1) == 10 && pow10(2) == 100 && pow10(3) == 1000) by {
        reveal_with_fuel(pow10, 4);
    }
    // Without a fraction.
    assert(whole + none =~= whole);
    lemma_run_of_digits(whole, none);
    assert(whole.take(whole.len() as int) =~= whole);
    assert(whole.skip(whole.len() as int) =~= none);
    assert(none.skip(0) =~= none);
    assert(none.take(0) =~= none);
    assert(whole.take(whole.len() as int) + whole.skip(whole.len() as int).take(0) =~= whole);
    assert(scaled(v, 3) == v * 1000);
    // With a fraction.
    let s = whole + seq!['.'] + fraction;
    assert(s =~= whole + (seq!['.'] + fraction));
    lemma_run_of_digits(whole, seq!['.'] + fraction);
    let u = s.skip(whole.len() + 1int);
    assert(u =~= fraction);
    assert(fraction + none =~= fraction);
    lemma_run_of_digits(fraction, none);
    assert(s.take(whole.len() as int) =~= whole);
    assert(u.take(f as int) =~= fraction);
    assert(u.skip(f as int) =~= none);
    lemma_digits_value_adds(whole, fraction);
    lemma_digits_below(fraction);
    let m = digits_value(whole + fraction);
    if f == 1 {
        assert(m == 10 * v + w);
        assert(scaled(m, 2) == m * 100);
    } else if f == 2 {
        assert(m == 100 * v + w);
        assert(scaled(m, 1) == m * 10);
    } else {
        assert(m == 1000 * v + w);
        lemma_scaled_zero(m);
    }
    assert((whole + fraction).len() > 0);
}

/// Where there is no digit, there are no seconds, and negative ones are none.
pub proof fn lemma_no_seconds(s: Seq<char>)
    ensures
        s.len() == 0 ==> parse_seconds(s) is None,
        s.len() > 0 && !is_digit(s[0]) && s[0] != '+' && s[0] != '-' && s[0] != '.' ==> parse_seconds(s)
            is None,
        parse_seconds(s) matches Some(ms) ==> ms < 60_000,
{
    if s.len() > 0 && !is_digit(s[0]) && s[0] != '+' && s[0] != '-' && s[0] != '.' {
        assert(digit_run(s) == 0);
        assert(s.take(0) + s.skip(0).take(0) =~= Seq::<char>::empty());
    }
}

/// An exponent is the number behind the letter, whichever letter it is, and negative behind a minus
/// sign; nothing at all stands for zero.
pub proof fn lemma_exponents_have_signs(digits: Seq<char>)
    requires
        digits.len() > 0,
        all_digits(digits),
    ensures
        exponent(Seq::empty()) == Some(0int),
        exponent(seq!['e'] + digits) == Some(digits_value(digits) as int),
        exponent(seq!['E'] + digits) == Some(digits_value(digits) as int),
        exponent(seq!['e', '+'] + digits) == Some(digits_value(digits) as int),
        exponent(seq!['e', '-'] + digits) == Some(-(digits_value(digits) as int)),
        exponent(seq!['e']) is None,
        exponent(seq!['e', '-']) is None,
        exponent(digits) is None,
{
    assert((seq!['e'] + digits).skip(1) =~= digits);
    assert((seq!['E'] + digits).skip(1) =~= digits);
    assert((seq!['e', '+'] + digits).skip(1) =~= seq!['+'] + digits);
    assert((seq!['e', '-'] + digits).skip(1) =~= seq!['-'] + digits);
    assert((seq!['+'] + digits).skip(1) =~= digits);
    assert((seq!['-'] + digits).skip(1) =~= digits);
    assert(is_digit(digits[0]));
    assert(seq!['e'].skip(1) =~= Seq::empty());
    assert(seq!['e', '-'].skip(1) =~= seq!['-']);
    assert(seq!['-'].skip(1) =~= Seq::empty());
}

/// To shift a number by one more place is to take it ten times; to shift it back is to take as many
/// whole tens, hundreds and so on as it holds.
pub proof fn lemma_shifts_are_by_tens(m: nat, n: nat)
    ensures
        scaled(m, 0) == m,
        scaled(m, n + 1int) == 10 * scaled(m, n as int),
        pow10(1) == 10 && pow10((n + 1) as nat) == 10 * pow10(n),
        scaled(m, -(n as int)) * pow10(n) <= m < (scaled(m, -(n as int)) + 1) * pow10(n),
{
    assert(pow10(0) == 1);
    lemma_tens_are_positive(n);
    let p = pow10(n);
    let q = pow10((n + 1) as nat);
    assert(q == 10 * p);
    assert(m * q == 10 * (m * p)) by (nonlinear_arith)
        requires
            q == 10 * p,
    ;
    let d = (m / p) as int;
    assert(d * p <= m < (d + 1) * p) by (nonlinear_arith)
        requires
            d == m / p,
            p > 0,
    ;
    if n == 0 {
        assert(m * 1 == m && m / 1 == m);
    }
}

proof fn lemma_tens_are_positive(n: nat)
    ensures
        pow10(n) > 0,
    decreases n,
{
    if n > 0 {
        lemma_tens_are_positive((n - 1) as nat);
    }
}

} // verus!
