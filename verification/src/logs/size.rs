//! Sizes in bytes, as users write them.

use vstd::arithmetic::div_mod::{lemma_fundamental_div_mod, lemma_fundamental_div_mod_converse};
use vstd::arithmetic::power2::{
    lemma2_to64, lemma2_to64_rest, lemma_pow2_adds, lemma_pow2_pos, lemma_pow2_strictly_increases, lemma_pow2_unfold,
    pow2,
};
use vstd::prelude::*;

use crate::error::LogsManagerError;
use crate::text::{
    all_digits, chars_of, decimal, find_char, first_of, is_digit, lemma_decimal_digits,
    lemma_first_of, lower, lower_char, lower_chars, number_of, same, string_of, trim, trimmed,
};

verus! {

// ---------------------------------------------------------------------------
// Rounding
// ---------------------------------------------------------------------------

/// How many binary digits a number has.
pub open spec fn bits(n: nat) -> nat
    decreases n,
{
    if n == 0 {
        0
    } else {
        1 + bits(n / 2)
    }
}

/// The whole number nearest to `a / b`; of two, the even one.
pub open spec fn nearest(a: nat, b: nat) -> nat {
    let whole = a / b;
    let left = a % b;
    if 2 * left < b || (2 * left == b && whole % 2 == 0) {
        whole
    } else {
        whole + 1
    }
}

/// The whole part of `p / q` once it is rounded to fifty-three binary digits, which is the
/// precision that sizes are computed in.
pub open spec fn rounded(p: nat, q: nat) -> nat {
    let b = bits(p / q);
    nearest(p * pow2(53), q * pow2(b)) * pow2(b) / pow2(53)
}

proof fn lemma_bits(n: nat)
    ensures
        n < pow2(bits(n)),
        n > 0 ==> bits(n) > 0 && pow2((bits(n) - 1) as nat) <= n,
    decreases n,
{
    lemma_pow2_pos(0);
    if n == 0 {
    } else if n == 1 {
        assert(bits(0) == 0);
        assert(bits(1) == 1);
        lemma2_to64();
    } else {
        lemma_bits(n / 2);
        lemma_pow2_unfold(bits(n));
        lemma_pow2_unfold((bits(n) - 1) as nat);
    }
}

proof fn lemma_scaled(a: nat, b: nat, c: nat)
    requires
        b > 0,
        c > 0,
    ensures
        (a * c) / (b * c) == a / b,
        (a * c) % (b * c) == (a % b) * c,
        nearest(a * c, b * c) == nearest(a, b),
{
    let w = a / b;
    let r = a % b;
    lemma_fundamental_div_mod(a as int, b as int);
    assert(a * c == w * (b * c) + r * c) by (nonlinear_arith)
        requires
            a == b * w + r,
    ;
    assert(0 <= r * c < b * c) by (nonlinear_arith)
        requires
            0 <= r < b,
            c > 0,
    ;
    lemma_fundamental_div_mod_converse(
        (a * c) as int,
        (b * c) as int,
        w as int,
        (r * c) as int,
    );
    assert(2 * (r * c) < b * c <==> 2 * r < b) by (nonlinear_arith)
        requires
            c > 0,
    ;
    assert(2 * (r * c) == b * c <==> 2 * r == b) by (nonlinear_arith)
        requires
            c > 0,
    ;
}

proof fn lemma_div_is(a: int, b: int, w: int, r: int)
    requires
        a == w * b + r,
        0 <= r < b,
    ensures
        a / b == w,
        a % b == r,
{
    lemma_fundamental_div_mod_converse(a, b, w, r);
}

/// Below fifty-three digits rounding only reaches the whole part when the fraction is all ones.
proof fn lemma_small(p: nat, q: nat)
    requires
        q > 0,
        bits(p / q) <= 52,
    ensures
        ({
            let m = (54 - bits(p / q)) as nat;
            let c = ((p % q) * pow2(m)) / q;
            rounded(p, q) == p / q + (if c + 1 == pow2(m) {
                1nat
            } else {
                0nat
            })
        }),
{
    let n = p / q;
    let f = p % q;
    let b = bits(n);
    let t = (53 - b) as nat;
    let m = (54 - b) as nat;
    let two = pow2(t);
    lemma_fundamental_div_mod(p as int, q as int);
    lemma_pow2_adds(t, b);
    lemma_pow2_pos(b);
    lemma_pow2_pos(t);
    lemma_pow2_pos(53);
    lemma_pow2_unfold(m);
    lemma_pow2_unfold(t);
    assert(p * pow2(53) == (p * two) * pow2(b)) by (nonlinear_arith)
        requires
            pow2(53) == two * pow2(b),
    ;
    lemma_scaled(p * two, q, pow2(b));
    let k = nearest(p * two, q);
    assert(k * pow2(b) / pow2(53) == k / two) by {
        lemma_scaled(k, two, pow2(b));
    }
    let g = f * two;
    let c = g / q;
    let r = g % q;
    lemma_fundamental_div_mod(g as int, q as int);
    assert(g < q * two) by (nonlinear_arith)
        requires
            g == f * two,
            f < q,
            two > 0,
    ;
    assert(c < two) by (nonlinear_arith)
        requires
            g == q * c + r,
            g < q * two,
            r >= 0,
            q > 0,
    ;
    assert(p * two == (n * two + c) * q + r) by (nonlinear_arith)
        requires
            p == q * n + f,
            g == f * two,
            g == q * c + r,
    ;
    lemma_div_is((p * two) as int, q as int, (n * two + c) as int, r as int);
    let half = pow2((t - 1) as nat);
    assert(n * two == 2 * (n * half)) by (nonlinear_arith)
        requires
            two == 2 * half,
    ;
    assert((n * two + c) % 2 == c % 2);
    let up = 2 * r > q || (2 * r == q && c % 2 == 1);
    assert(k == n * two + c + (if up {
        1nat
    } else {
        0nat
    }));
    // The next digit of the fraction.
    let last: nat = if 2 * r >= q {
        1
    } else {
        0
    };
    let all = f * pow2(m);
    assert(all == (2 * c + last) * q + (2 * r - last * q)) by (nonlinear_arith)
        requires
            all == f * pow2(m),
            pow2(m) == 2 * two,
            g == f * two,
            g == q * c + r,
    ;
    assert(0 <= 2 * r - last * q < q) by (nonlinear_arith)
        requires
            0 <= r < q,
            last == 0 && 2 * r < q || last == 1 && 2 * r >= q,
    ;
    lemma_div_is(all as int, q as int, (2 * c + last) as int, 2 * r - last * q);
    if c + 1 == two && up {
        assert(k == (n + 1) * two) by (nonlinear_arith)
            requires
                k == n * two + c + 1,
                c + 1 == two,
        ;
        lemma_div_is(k as int, two as int, (n + 1) as int, 0);
    } else {
        let low = (c + (if up {
            1nat
        } else {
            0nat
        })) as nat;
        assert(k == n * two + low);
        lemma_div_is(k as int, two as int, n as int, low as int);
    }
    assert((2 * c + last) + 1 == pow2(m) <==> (c + 1 == two && last == 1));
    assert(c + 1 == two ==> c % 2 == 1);
}

/// From fifty-three digits on, the whole part is rounded to a multiple of a power of two.
proof fn lemma_large(p: nat, q: nat, unit: nat)
    requires
        q > 0,
        bits(p / q) >= 53,
        unit == pow2((bits(p / q) - 53) as nat),
    ensures
        rounded(p, q) == nearest(p, q * unit) * unit,
        p / (q * unit) == (p / q) / unit,
        p % (q * unit) == ((p / q) % unit) * q + p % q,
        unit > 0,
{
    let n = p / q;
    let f = p % q;
    let b = bits(n);
    lemma_pow2_adds(53, (b - 53) as nat);
    lemma_pow2_pos(53);
    lemma_pow2_pos((b - 53) as nat);
    let high = pow2(53);
    assert(q * pow2(b) == (q * unit) * high) by (nonlinear_arith)
        requires
            pow2(b) == high * unit,
    ;
    assert(q * unit > 0) by (nonlinear_arith)
        requires
            q > 0,
            unit > 0,
    ;
    lemma_scaled(p, q * unit, high);
    let k = nearest(p, q * unit);
    assert(k * pow2(b) == (k * unit) * high + 0) by (nonlinear_arith)
        requires
            pow2(b) == high * unit,
    ;
    lemma_div_is((k * pow2(b)) as int, high as int, (k * unit) as int, 0);
    lemma_fundamental_div_mod(p as int, q as int);
    lemma_fundamental_div_mod(n as int, unit as int);
    let w = n / unit;
    let r = n % unit;
    assert(p == w * (q * unit) + (r * q + f)) by (nonlinear_arith)
        requires
            p == q * n + f,
            n == unit * w + r,
    ;
    assert(0 <= r * q + f < q * unit) by (nonlinear_arith)
        requires
            0 <= r < unit,
            0 <= f < q,
    ;
    lemma_div_is(p as int, (q * unit) as int, w as int, (r * q + f) as int);
}

/// Beyond what fits in 64 bits, rounding does not come back into it.
proof fn lemma_huge(p: nat, q: nat)
    requires
        q > 0,
        p / q > u64::MAX,
    ensures
        rounded(p, q) > u64::MAX,
{
    let n = p / q;
    let b = bits(n);
    lemma_bits(n);
    lemma2_to64();
    if b < 65 {
        if b < 64 {
            lemma_pow2_strictly_increases(b, 64);
        }
    }
    let unit = pow2((b - 53) as nat);
    lemma_large(p, q, unit);
    let w = n / unit;
    lemma_fundamental_div_mod(n as int, unit as int);
    // The highest digit of the whole part is itself a multiple of the unit.
    let top = pow2((b - 1) as nat);
    lemma_pow2_adds(52, (b - 53) as nat);
    let head = pow2(52);
    assert(w >= head) by (nonlinear_arith)
        requires
            n == unit * w + n % unit,
            n % unit < unit,
            n >= top,
            top == head * unit,
            unit > 0,
    ;
    assert(w * unit >= top) by (nonlinear_arith)
        requires
            w >= head,
            top == head * unit,
            unit > 0,
    ;
    if b - 1 > 64 {
        lemma_pow2_strictly_increases(64, (b - 1) as nat);
    }
    let k = nearest(p, q * unit);
    assert(k * unit >= w * unit) by (nonlinear_arith)
        requires
            k >= w,
    ;
}

// ---------------------------------------------------------------------------
// Decimal fractions
// ---------------------------------------------------------------------------

/// Ten to the power of `k`.
pub open spec fn ten_to(k: nat) -> nat
    decreases k,
{
    if k == 0 {
        1
    } else {
        10 * ten_to((k - 1) as nat)
    }
}

proof fn lemma_ten_to(k: nat)
    ensures
        ten_to(k) > 0,
    decreases k,
{
    if k > 0 {
        lemma_ten_to((k - 1) as nat);
    }
}

/// The number that the decimal digits from the `i`-th on spell.
spec fn spelled(digits: Seq<u8>, i: int) -> nat
    decreases digits.len() - i,
{
    if i >= digits.len() || i < 0 {
        0
    } else {
        digits[i] as nat * ten_to((digits.len() - i - 1) as nat) + spelled(digits, i + 1)
    }
}

spec fn are_digits(digits: Seq<u8>) -> bool {
    forall|i: int| 0 <= i < digits.len() ==> (#[trigger] digits[i]) <= 9
}

proof fn lemma_spelled_bound(digits: Seq<u8>, i: int)
    requires
        are_digits(digits),
        0 <= i <= digits.len(),
    ensures
        spelled(digits, i) < ten_to((digits.len() - i) as nat),
    decreases digits.len() - i,
{
    if i < digits.len() {
        lemma_spelled_bound(digits, i + 1);
        let t = ten_to((digits.len() - i - 1) as nat);
        let d = digits[i] as nat;
        assert(d * t <= 9 * t) by (nonlinear_arith)
            requires
                d <= 9,
        ;
    }
}

proof fn lemma_spelled_from(a: Seq<u8>, b: Seq<u8>, i: int)
    requires
        a.len() == b.len(),
        0 <= i,
        forall|j: int| i <= j < a.len() ==> a[j] == b[j],
    ensures
        spelled(a, i) == spelled(b, i),
    decreases a.len() - i,
{
    if i < a.len() {
        lemma_spelled_from(a, b, i + 1);
    }
}

proof fn lemma_spelled_zero(digits: Seq<u8>, i: int)
    requires
        0 <= i <= digits.len(),
    ensures
        spelled(digits, i) == 0 <==> forall|j: int| i <= j < digits.len() ==> digits[j] == 0,
    decreases digits.len() - i,
{
    if i < digits.len() {
        lemma_spelled_zero(digits, i + 1);
        let t = ten_to((digits.len() - i - 1) as nat);
        lemma_ten_to((digits.len() - i - 1) as nat);
        let d = digits[i] as nat;
        assert(d * t == 0 <==> d == 0) by (nonlinear_arith)
            requires
                t > 0,
        ;
    }
}

/// Doubles a decimal fraction and gives the digit that moves before the point.
fn double(digits: &mut Vec<u8>) -> (carry: u64)
    requires
        are_digits(old(digits)@),
    ensures
        are_digits(final(digits)@),
        final(digits)@.len() == old(digits)@.len(),
        carry <= 1,
        2 * spelled(old(digits)@, 0) == carry * ten_to(old(digits)@.len()) + spelled(
            final(digits)@,
            0,
        ),
{
    let ghost d0 = digits@;
    let n: usize = digits.len();
    let mut i: usize = n;
    let mut carry: u64 = 0;
    while i > 0
        invariant
            i <= n,
            n == digits@.len(),
            n == d0.len(),
            are_digits(d0),
            are_digits(digits@),
            carry <= 1,
            forall|j: int| 0 <= j < i ==> digits@[j] == d0[j],
            2 * spelled(d0, i as int) == carry * ten_to((n - i) as nat) + spelled(
                digits@,
                i as int,
            ),
        decreases i,
    {
        let ghost before = digits@;
        i = i - 1;
        assert(digits@[i as int] == d0[i as int]);
        let twice: u64 = 2 * digits[i] as u64 + carry;
        let ghost c = carry as nat;
        let low: u64 = if twice >= 10 {
            carry = 1;
            twice - 10
        } else {
            carry = 0;
            twice
        };
        digits.set(i, low as u8);
        proof {
            lemma_spelled_from(before, digits@, i + 1);
            let t = ten_to((n - i - 1) as nat);
            let d = d0[i as int] as nat;
            let up = carry as nat;
            assert(ten_to((n - i) as nat) == 10 * t);
            assert(2 * (d * t) + c * t == up * (10 * t) + low * t) by (nonlinear_arith)
                requires
                    2 * d + c == 10 * up + low,
            ;
        }
    }
    carry
}

fn is_zero(digits: &Vec<u8>) -> (r: bool)
    ensures
        r == (spelled(digits@, 0) == 0),
{
    let mut i: usize = 0;
    while i < digits.len()
        invariant
            i <= digits.len(),
            forall|j: int| 0 <= j < i ==> digits@[j] == 0,
        decreases digits.len() - i,
    {
        if digits[i] != 0 {
            proof {
                lemma_spelled_zero(digits@, 0);
                assert(digits@[i as int] != 0);
            }
            return false;
        }
        i = i + 1;
    }
    proof {
        lemma_spelled_zero(digits@, 0);
    }
    true
}

fn bit_count(n: u64) -> (r: u32)
    ensures
        r == bits(n as nat),
        r <= 64,
{
    let mut left: u64 = n;
    let mut count: u32 = 0;
    while left > 0
        invariant
            count + bits(left as nat) == bits(n as nat),
        decreases left,
    {
        left = left / 2;
        count = count.saturating_add(1);
        proof {
            lemma_bits(n as nat);
            lemma2_to64();
            if bits(n as nat) > 64 {
                if bits(n as nat) - 1 > 64 {
                    lemma_pow2_strictly_increases(64, (bits(n as nat) - 1) as nat);
                }
            }
        }
    }
    proof {
        lemma_bits(n as nat);
        lemma2_to64();
        if bits(n as nat) > 64 {
            if bits(n as nat) - 1 > 64 {
                lemma_pow2_strictly_increases(64, (bits(n as nat) - 1) as nat);
            }
        }
    }
    count
}

// ---------------------------------------------------------------------------
// Sizes
// ---------------------------------------------------------------------------

/// By how many binary digits a unit of size moves the number before it.
pub open spec fn size_unit(unit: Seq<char>) -> Option<nat> {
    if unit == ""@ || unit == "b"@ {
        Some(0)
    } else if unit == "k"@ || unit == "kb"@ {
        Some(10)
    } else if unit == "m"@ || unit == "mb"@ {
        Some(20)
    } else if unit == "g"@ || unit == "gb"@ {
        Some(30)
    } else if unit == "t"@ || unit == "tb"@ {
        Some(40)
    } else {
        None
    }
}

/// Whether `c` can stand in the number of a size.
pub open spec fn in_number(c: char) -> bool {
    is_digit(c) || c == '.'
}

/// How many characters at the head of `s` can stand in a number.
pub open spec fn number_len(s: Seq<char>) -> int
    decreases s.len(),
{
    if s.len() > 0 && in_number(s[0]) {
        1 + number_len(s.skip(1))
    } else {
        0
    }
}

proof fn lemma_number_len(s: Seq<char>, i: int)
    requires
        0 <= i <= s.len(),
        forall|j: int| 0 <= j < i ==> in_number(#[trigger] s[j]),
        i < s.len() ==> !in_number(s[i]),
    ensures
        number_len(s) == i,
    decreases s.len(),
{
    if i > 0 {
        assert(in_number(s[0]));
        let rest = s.skip(1);
        assert forall|j: int| 0 <= j < i - 1 implies in_number(#[trigger] rest[j]) by {
            assert(rest[j] == s[j + 1]);
        }
        lemma_number_len(rest, i - 1);
    }
}

/// What stands before the point.
pub open spec fn before_point(number: Seq<char>) -> Seq<char> {
    number.take(first_of(number, '.'))
}

/// What stands behind the point; nothing when there is none.
pub open spec fn behind_point(number: Seq<char>) -> Seq<char> {
    let i = first_of(number, '.');
    if i < number.len() {
        number.skip(i + 1)
    } else {
        seq![]
    }
}

/// Whether `number` is digits with at most one point among them.
pub open spec fn is_number(number: Seq<char>) -> bool {
    &&& all_digits(before_point(number))
    &&& all_digits(behind_point(number))
    &&& before_point(number).len() + behind_point(number).len() > 0
}

/// The size in bytes of a number and a unit, rounded as sizes are, and down to a whole byte. A
/// size that does not fit is the largest there is.
pub open spec fn scaled(number: Seq<char>, shift: nat) -> nat {
    let q = ten_to(behind_point(number).len());
    let p = (number_of(before_point(number)) * q + number_of(behind_point(number))) * pow2(shift);
    if rounded(p, q) > u64::MAX {
        u64::MAX as nat
    } else {
        rounded(p, q)
    }
}

/// The size in bytes that a text gives: a number and a unit, in either case.
pub open spec fn size_of(value: Seq<char>) -> Option<nat> {
    let t = trimmed(value);
    let i = number_len(t);
    let number = t.take(i);
    match size_unit(lower(trimmed(t.skip(i)))) {
        Some(shift) => if is_number(number) {
            Some(scaled(number, shift))
        } else {
            None
        },
        None => None,
    }
}

/// The digits in `v[from..to]` as numbers, when all are digits.
fn digits_in(v: &Vec<char>, from: usize, to: usize) -> (r: Option<Vec<u8>>)
    requires
        from <= to <= v@.len(),
    ensures
        match r {
            Some(d) => {
                &&& all_digits(v@.subrange(from as int, to as int))
                &&& are_digits(d@)
                &&& d@.len() == to - from
                &&& spelled(d@, 0) == number_of(v@.subrange(from as int, to as int))
            },
            None => !all_digits(v@.subrange(from as int, to as int)),
        },
{
    let ghost s = v@.subrange(from as int, to as int);
    let mut d: Vec<u8> = Vec::new();
    let mut i: usize = from;
    while i < to
        invariant
            from <= i <= to <= v@.len(),
            s == v@.subrange(from as int, to as int),
            d@.len() == i - from,
            are_digits(d@),
            forall|j: int| 0 <= j < i - from ==> is_digit(#[trigger] s[j]) && d@[j] == s[j] as int - '0' as int,
        decreases to - i,
    {
        let c = v[i];
        assert(s[i - from] == c);
        if c < '0' || c > '9' {
            assert(!is_digit(s[i - from]));
            return None;
        }
        d.push((c as u32 - '0' as u32) as u8);
        i = i + 1;
    }
    proof {
        lemma_spelled_text(s, d@, 0);
        assert(s.take(0) =~= Seq::<char>::empty());
        assert(0 * ten_to(s.len()) == 0) by (nonlinear_arith);
    }
    Some(d)
}

proof fn lemma_spelled_text(s: Seq<char>, d: Seq<u8>, i: int)
    requires
        s.len() == d.len(),
        0 <= i <= s.len(),
        forall|j: int| 0 <= j < s.len() ==> is_digit(#[trigger] s[j]) && d[j] == s[j] as int - '0' as int,
    ensures
        number_of(s) == number_of(s.take(i)) * ten_to((s.len() - i) as nat) + spelled(d, i),
    decreases s.len() - i,
{
    if i == s.len() {
        assert(s.take(i) =~= s);
        assert(number_of(s) * 1 == number_of(s)) by (nonlinear_arith);
    } else {
        lemma_spelled_text(s, d, i + 1);
        assert(s.take(i + 1).drop_last() =~= s.take(i));
        assert(is_digit(s[i]));
        let n = number_of(s.take(i));
        let t = ten_to((s.len() - i - 1) as nat);
        let x = d[i] as nat;
        assert(number_of(s.take(i + 1)) == n * 10 + x);
        assert((n * 10 + x) * t == n * (10 * t) + x * t) by (nonlinear_arith);
    }
}

/// The whole number that digits spell, when it fits in 64 bits.
fn whole_of(digits: &Vec<u8>) -> (r: Option<u64>)
    requires
        are_digits(digits@),
    ensures
        match r {
            Some(n) => n == spelled(digits@, 0),
            None => spelled(digits@, 0) > u64::MAX,
        },
{
    let mut n: u64 = 0;
    let mut i: usize = 0;
    while i < digits.len()
        invariant
            i <= digits.len(),
            are_digits(digits@),
            spelled(digits@, 0) == n * ten_to((digits@.len() - i) as nat) + spelled(
                digits@,
                i as int,
            ),
        decreases digits.len() - i,
    {
        let d: u64 = digits[i] as u64;
        let next: u128 = n as u128 * 10 + d as u128;
        proof {
            let t = ten_to((digits@.len() - i - 1) as nat);
            lemma_ten_to((digits@.len() - i - 1) as nat);
            assert(n * (10 * t) + d * t == next * t) by (nonlinear_arith)
                requires
                    next == n * 10 + d,
            ;
            assert(next * t >= next) by (nonlinear_arith)
                requires
                    t >= 1,
                    next >= 0,
            ;
        }
        if next > u64::MAX as u128 {
            return None;
        }
        n = next as u64;
        i = i + 1;
    }
    assert(n * 1 == n) by (nonlinear_arith);
    Some(n)
}

/// Rounds `n` and the fraction behind it.
fn round(n: u64, fraction: Vec<u8>, Ghost(p): Ghost<nat>) -> (r: u64)
    requires
        are_digits(fraction@),
        p == n * ten_to(fraction@.len()) + spelled(fraction@, 0),
    ensures
        ({
            let exact = rounded(p, ten_to(fraction@.len()));
            r == (if exact > u64::MAX {
                u64::MAX as nat
            } else {
                exact
            })
        }),
{
    let mut fraction = fraction;
    let ghost q = ten_to(fraction@.len());
    let ghost f = spelled(fraction@, 0);
    proof {
        lemma_spelled_bound(fraction@, 0);
        lemma_div_is(p as int, q as int, n as int, f as int);
        lemma_bits(n as nat);
    }
    let b: u32 = bit_count(n);
    if b <= 52 {
        let m: u32 = 54 - b;
        let mut j: u32 = 0;
        let mut ones: u64 = 0;
        let mut top: u64 = 1;
        proof {
            lemma2_to64();
            assert(pow2(0) == 1);
            assert(f * 1 == f) by (nonlinear_arith);
        }
        while j < m
            invariant
                j <= m <= 54,
                are_digits(fraction@),
                q == ten_to(fraction@.len()),
                top == pow2(j as nat),
                ones < top,
                f * pow2(j as nat) == ones * q + spelled(fraction@, 0),
                top <= 0x40_0000_0000_0000,
            decreases m - j,
        {
            let ghost g = spelled(fraction@, 0);
            let ghost h = ones as nat;
            proof {
                lemma_pow2_unfold((j + 1) as nat);
                lemma2_to64_rest();
                if j + 1 < 54 {
                    lemma_pow2_strictly_increases((j + 1) as nat, 54);
                }
            }
            let carry = double(&mut fraction);
            let ghost g2 = spelled(fraction@, 0);
            ones = 2 * ones + carry;
            top = 2 * top;
            assert(f * pow2((j + 1) as nat) == ones * q + g2) by (nonlinear_arith)
                requires
                    pow2((j + 1) as nat) == 2 * pow2(j as nat),
                    f * pow2(j as nat) == h * q + g,
                    2 * g == carry * q + g2,
                    ones == 2 * h + carry,
            ;
            j = j + 1;
        }
        proof {
            lemma_spelled_bound(fraction@, 0);
            lemma_div_is(
                (f * pow2(m as nat)) as int,
                q as int,
                ones as int,
                spelled(fraction@, 0) as int,
            );
            lemma_small(p, q);
            lemma2_to64_rest();
            if b < 52 {
                lemma_pow2_strictly_increases(b as nat, 52);
            }
        }
        if ones + 1 == top {
            n + 1
        } else {
            n
        }
    } else {
        let mut unit: u64 = 1;
        let mut j: u32 = 53;
        proof {
            lemma2_to64();
            assert(pow2(0) == 1);
        }
        while j < b
            invariant
                53 <= j <= b <= 64,
                unit == pow2((j - 53) as nat),
                unit <= 2048,
                j > 53 ==> unit % 2 == 0,
                j == 53 ==> unit == 1,
            decreases b - j,
        {
            proof {
                lemma_pow2_unfold((j - 52) as nat);
                lemma2_to64();
                if j - 52 < 11 {
                    lemma_pow2_strictly_increases((j - 52) as nat, 11);
                }
            }
            unit = 2 * unit;
            j = j + 1;
        }
        proof {
            lemma_large(p, q, unit as nat);
        }
        let whole: u64 = n / unit;
        let left: u64 = n % unit;
        let ghost rem = (left * q + f) as nat;
        let (more, tie) = if unit == 1 {
            let carry = double(&mut fraction);
            let zero = is_zero(&fraction);
            proof {
                lemma_spelled_bound(fraction@, 0);
                assert(q * 1 == q) by (nonlinear_arith);
                assert(0 * q == 0) by (nonlinear_arith);
                assert(1 * q == q) by (nonlinear_arith);
                assert(left == 0);
            }
            (carry == 1 && !zero, carry == 1 && zero)
        } else {
            let half: u64 = unit / 2;
            let zero = is_zero(&fraction);
            proof {
                let lo = left as int;
                let hi = half as int;
                assert(2 * (lo * q + f) - q * (2 * hi) == 2 * ((lo - hi) * q + f)) by (nonlinear_arith);
                assert(lo > hi ==> (lo - hi) * q >= q) by (nonlinear_arith)
                    requires
                        q > 0,
                ;
                assert(lo < hi ==> (lo - hi) * q <= -q) by (nonlinear_arith)
                    requires
                        q > 0,
                ;
                assert(lo == hi ==> (lo - hi) * q == 0) by (nonlinear_arith);
                assert(unit == 2 * hi);
            }
            (left > half || (left == half && !zero), left == half && zero)
        };
        assert(more == (2 * rem > q * unit));
        assert(tie == (2 * rem == q * unit));
        let steps: u128 = if more || (tie && whole % 2 == 1) {
            whole as u128 + 1
        } else {
            whole as u128
        };
        assert(steps == nearest(p, q * unit as nat));
        assert(steps * unit <= (u64::MAX + 1) * 2048) by (nonlinear_arith)
            requires
                steps <= u64::MAX + 1,
                unit <= 2048,
                steps >= 0,
                unit >= 0,
        ;
        let size: u128 = steps * unit as u128;
        if size > u64::MAX as u128 {
            u64::MAX
        } else {
            size as u64
        }
    }
}

fn scale(whole: &Vec<u8>, fraction: Vec<u8>, shift: u32) -> (r: u64)
    requires
        are_digits(whole@),
        are_digits(fraction@),
        shift <= 40,
    ensures
        ({
            let q = ten_to(fraction@.len());
            let p = (spelled(whole@, 0) * q + spelled(fraction@, 0)) * pow2(shift as nat);
            r == (if rounded(p, q) > u64::MAX {
                u64::MAX as nat
            } else {
                rounded(p, q)
            })
        }),
{
    let mut fraction = fraction;
    let ghost len = fraction@.len();
    let ghost q = ten_to(len);
    let ghost w = spelled(whole@, 0);
    let ghost p0 = w * q + spelled(fraction@, 0);
    let ghost p = p0 * pow2(shift as nat);
    proof {
        lemma_ten_to(len);
        lemma_pow2_pos(shift as nat);
    }
    let n0: u64 = match whole_of(whole) {
        Some(n) => n,
        None => {
            proof {
                let two = pow2(shift as nat);
                assert(p >= w * q) by (nonlinear_arith)
                    requires
                        p == p0 * two,
                        p0 >= w * q,
                        two >= 1,
                        w >= 0,
                        q >= 0,
                ;
                lemma_fundamental_div_mod(p as int, q as int);
                assert(p / q >= w) by (nonlinear_arith)
                    requires
                        p == q * (p / q) + p % q,
                        p % q < q,
                        p >= w * q,
                        q > 0,
                ;
                lemma_huge(p, q);
            }
            return u64::MAX;
        },
    };
    let mut n: u128 = n0 as u128;
    let mut j: u32 = 0;
    proof {
        lemma2_to64();
        assert(pow2(0) == 1);
        assert(p0 * 1 == p0) by (nonlinear_arith);
    }
    while j < shift
        invariant
            j <= shift <= 40,
            are_digits(fraction@),
            fraction@.len() == len,
            q == ten_to(len),
            n * q + spelled(fraction@, 0) == p0 * pow2(j as nat),
            n < 0x1_0000_0000_0000_0000 * pow2(j as nat),
        decreases shift - j,
    {
        let ghost g = spelled(fraction@, 0);
        let ghost m = n as nat;
        proof {
            lemma_pow2_unfold((j + 1) as nat);
            lemma2_to64_rest();
            if j < 40 {
                lemma_pow2_strictly_increases(j as nat, 40);
            }
        }
        let carry = double(&mut fraction);
        let ghost g2 = spelled(fraction@, 0);
        n = 2 * n + carry as u128;
        assert(n * q + g2 == p0 * pow2((j + 1) as nat)) by (nonlinear_arith)
            requires
                pow2((j + 1) as nat) == 2 * pow2(j as nat),
                m * q + g == p0 * pow2(j as nat),
                2 * g == carry * q + g2,
                n == 2 * m + carry,
        ;
        j = j + 1;
    }
    proof {
        lemma_spelled_bound(fraction@, 0);
        lemma_div_is(p as int, q as int, n as int, spelled(fraction@, 0) as int);
    }
    if n > u64::MAX as u128 {
        proof {
            lemma_huge(p, q);
        }
        return u64::MAX;
    }
    round(n as u64, fraction, Ghost(p))
}

/// Parses a size such as `500MB`, `2g` or `1048576` into bytes.
pub fn parse_byte_size(value: &str) -> (r: Result<u64, LogsManagerError>)
    ensures
        match r {
            Ok(n) => size_of(value@) == Some(n as nat),
            Err(LogsManagerError::InvalidPruneArg(v)) => size_of(value@) is None && v@ == value@,
            Err(_) => false,
        },
{
    let t = trim(value);
    let v = chars_of(t.as_str());
    let mut i: usize = 0;
    while i < v.len() && (('0' <= v[i] && v[i] <= '9') || v[i] == '.')
        invariant
            i <= v.len(),
            forall|j: int| 0 <= j < i ==> in_number(#[trigger] v@[j]),
        decreases v.len() - i,
    {
        i = i + 1;
    }
    let ghost number = v@.take(i as int);
    proof {
        lemma_number_len(v@, i as int);
        lemma_first_of(number, '.');
    }
    let number_text = chars_of(string_of(&v, 0, i).as_str());
    assert(number_text@ =~= number);
    let point: usize = find_char(&number_text, 0, '.');
    assert(number_text@.skip(0) =~= number);
    let whole = digits_in(&number_text, 0, point);
    assert(number.subrange(0, point as int) =~= before_point(number));
    let fraction = if point < i {
        let d = digits_in(&number_text, point + 1, i);
        assert(number.subrange(point + 1, i as int) =~= behind_point(number));
        d
    } else {
        let d: Vec<u8> = Vec::new();
        assert(behind_point(number) =~= Seq::<char>::empty());
        Some(d)
    };
    let rest = string_of(&v, i, v.len());
    assert(rest@ =~= v@.skip(i as int));
    let unit = trim(rest.as_str());
    let lowered = lower_chars(&chars_of(unit.as_str()));
    let name = string_of(&lowered, 0, lowered.len());
    assert(name@ =~= lower(trimmed(rest@)));
    let u = name.as_str();
    let shift: u32 = if same(u, "") || same(u, "b") {
        0
    } else if same(u, "k") || same(u, "kb") {
        10
    } else if same(u, "m") || same(u, "mb") {
        20
    } else if same(u, "g") || same(u, "gb") {
        30
    } else if same(u, "t") || same(u, "tb") {
        40
    } else {
        return Err(LogsManagerError::InvalidPruneArg(value.to_owned()));
    };
    match (whole, fraction) {
        (Some(w), Some(f)) => {
            if w.len() == 0 && f.len() == 0 {
                return Err(LogsManagerError::InvalidPruneArg(value.to_owned()));
            }
            Ok(scale(&w, f, shift))
        },
        _ => Err(LogsManagerError::InvalidPruneArg(value.to_owned())),
    }
}

/// Rounding leaves a whole number alone that has no more digits than are kept.
pub proof fn law_whole_sizes_are_exact(n: nat)
    requires
        n < pow2(53),
    ensures
        rounded(n, 1) == n,
{
    lemma_bits(n);
    assert(n / 1 == n);
    let b = bits(n);
    if b > 53 {
        if b - 1 > 53 {
            lemma_pow2_strictly_increases(53, (b - 1) as nat);
        }
    }
    let t = (53 - b) as nat;
    lemma_pow2_adds(t, b);
    lemma_pow2_pos(b);
    lemma_pow2_pos(53);
    let two = pow2(t);
    assert((n * two) * pow2(b) == n * pow2(53)) by (nonlinear_arith)
        requires
            pow2(53) == two * pow2(b),
    ;
    assert(1 * pow2(b) == pow2(b));
    lemma_div_is((n * pow2(53)) as int, pow2(b) as int, (n * two) as int, 0);
    assert(nearest(n * pow2(53), pow2(b)) == n * two);
    lemma_div_is((n * pow2(53)) as int, pow2(53) as int, n as int, 0);
}

/// The decimal spelling of a size, without a unit, gives that size back.
pub proof fn law_plain_size_reads_back(n: nat)
    requires
        n < pow2(53),
    ensures
        size_of(decimal(n)) == Some(n),
{
    let s = decimal(n);
    lemma_decimal_digits(n);
    assert(is_digit(s[0]) && is_digit(s.last()));
    assert(trimmed(s) == s);
    assert forall|j: int| 0 <= j < s.len() implies in_number(#[trigger] s[j]) by {
        assert(is_digit(s[j]));
    }
    lemma_number_len(s, s.len() as int);
    assert(s.take(s.len() as int) =~= s);
    assert(s.skip(s.len() as int) =~= Seq::<char>::empty());
    assert(lower(trimmed(Seq::<char>::empty())) =~= Seq::<char>::empty());
    reveal_strlit("");
    assert(""@ =~= Seq::<char>::empty());
    lemma_first_of(s, '.');
    let i = first_of(s, '.');
    if i < s.len() {
        assert(is_digit(s[i]));
    }
    assert(before_point(s) =~= s);
    assert(behind_point(s) =~= Seq::<char>::empty());
    lemma2_to64();
    assert(ten_to(0) == 1);
    assert((n * 1 + 0) * 1 == n);
    law_whole_sizes_are_exact(n);
    lemma_pow2_strictly_increases(53, 64);
    lemma2_to64_rest();
}

/// A whole number of a unit is that many bytes, kilobytes of 1024 bytes, and so on by 1024, with the
/// unit in either case and with or without the letter for bytes.
pub proof fn law_sizes_count_their_unit(n: nat, unit: char, shift: nat)
    requires
        ({
            ||| (unit == 'b' || unit == 'B') && shift == 0
            ||| (unit == 'k' || unit == 'K') && shift == 10
            ||| (unit == 'm' || unit == 'M') && shift == 20
            ||| (unit == 'g' || unit == 'G') && shift == 30
            ||| (unit == 't' || unit == 'T') && shift == 40
        }),
        n * pow2(shift) < pow2(53),
    ensures
        size_of(decimal(n).push(unit)) == Some(n * pow2(shift)),
{
    let d = decimal(n);
    let t = d.push(unit);
    lemma_decimal_digits(n);
    assert(is_digit(d[0]) && is_digit(d.last()));
    assert(t[0] == d[0]);
    assert(trimmed(t) == t);
    assert forall|j: int| 0 <= j < d.len() implies in_number(#[trigger] t[j]) by {
        assert(t[j] == d[j]);
        assert(is_digit(d[j]));
    }
    lemma_number_len(t, d.len() as int);
    assert(t.take(d.len() as int) =~= d);
    let u = t.skip(d.len() as int);
    assert(u =~= seq![unit]);
    assert(trimmed(u) == u);
    let small = lower(u);
    assert(small.len() == 1 && small[0] == lower_char(unit));
    lemma_size_letters();
    if shift == 0 {
        assert(small =~= "b"@);
    } else if shift == 10 {
        assert(small =~= "k"@);
    } else if shift == 20 {
        assert(small =~= "m"@);
    } else if shift == 30 {
        assert(small =~= "g"@);
    } else {
        assert(small =~= "t"@);
    }
    assert(size_unit(small) == Some(shift));
    lemma_first_of(d, '.');
    let i = first_of(d, '.');
    if i < d.len() {
        assert(is_digit(d[i]));
    }
    assert(before_point(d) =~= d);
    assert(behind_point(d) =~= Seq::<char>::empty());
    assert(ten_to(0) == 1);
    assert(n * 1 + 0 == n);
    law_whole_sizes_are_exact(n * pow2(shift));
    lemma_pow2_strictly_increases(53, 64);
    lemma2_to64_rest();
}

proof fn lemma_size_letters()
    ensures
        "b"@ == seq!['b'],
        "k"@ == seq!['k'],
        "m"@ == seq!['m'],
        "g"@ == seq!['g'],
        "t"@ == seq!['t'],
        size_unit("b"@) == Some(0nat),
        size_unit("k"@) == Some(10nat),
        size_unit("m"@) == Some(20nat),
        size_unit("g"@) == Some(30nat),
        size_unit("t"@) == Some(40nat),
{
    reveal_strlit("");
    reveal_strlit("b");
    reveal_strlit("k");
    reveal_strlit("m");
    reveal_strlit("g");
    reveal_strlit("t");
    reveal_strlit("kb");
    reveal_strlit("mb");
    reveal_strlit("gb");
    reveal_strlit("tb");
    assert("b"@ =~= seq!['b']);
    assert("k"@ =~= seq!['k']);
    assert("m"@ =~= seq!['m']);
    assert("g"@ =~= seq!['g']);
    assert("t"@ =~= seq!['t']);
    assert("b"@[0] == 'b' && "k"@[0] == 'k' && "m"@[0] == 'm' && "g"@[0] == 'g' && "t"@[0] == 't');
    assert("kb"@.len() == 2 && "mb"@.len() == 2 && "gb"@.len() == 2 && "tb"@.len() == 2);
    assert(""@.len() == 0);
}

} // verus!
