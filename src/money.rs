//! Amounts of money in a given currency.
use vstd::prelude::*;
use vstd::string::StrSliceExecFns;

use crate::code::{CurrencyCode, code_of, is_code_text, lemma_parse_round_trip, names_code};
use crate::text::{push_char, trim, trim_back, trim_bounds, trim_front, is_space};

verus! {

/// Number of amount units in one whole unit of a currency: amounts are held
/// in millionths.
pub const AMOUNT_SCALE: u64 = 1_000_000;

/// An amount of money, in millionths of a unit of its currency.
#[derive(Debug, Clone, Copy, PartialEq, Eq, Structural)]
pub struct Currency {
    pub code: CurrencyCode,
    pub amount: i64,
}

/// Why a text is not an amount of money.
#[derive(Debug, Clone, Copy, PartialEq, Eq, Structural)]
pub enum CurrencyParsingError {
    /// The code part is not a currency code.
    InvalidCurrencyCode,
    /// The amount part is not a decimal number that can be held.
    InvalidAmount,
    /// The text is not an amount and a code, separated by one space.
    IncorrectFormat,
}

pub open spec fn fits_i64(v: int) -> bool {
    i64::MIN <= v <= i64::MAX
}

pub open spec fn is_digit(c: char) -> bool {
    48 <= (c as u32) && (c as u32) <= 57
}

pub open spec fn digit_value(c: char) -> int {
    (c as u32) as int - 48
}

pub open spec fn all_digits(s: Seq<char>) -> bool {
    forall|k: int| 0 <= k < s.len() ==> is_digit(#[trigger] s[k])
}

/// The number that a string of decimal digits writes.
pub open spec fn digits_value(s: Seq<char>) -> int
    decreases s.len(),
{
    if s.len() == 0 {
        0
    } else {
        digits_value(s.drop_last()) * 10 + digit_value(s.last())
    }
}

pub open spec fn pow10(n: nat) -> int
    decreases n,
{
    if n == 0 {
        1
    } else {
        10 * pow10((n - 1) as nat)
    }
}

/// The text has its decimal point at `k`: digits before it, at most six
/// digits after it, and at least one digit in all.
pub open spec fn point_at(s: Seq<char>, k: int) -> bool {
    &&& 0 <= k < s.len()
    &&& s[k] == '.'
    &&& all_digits(s.take(k))
    &&& all_digits(s.skip(k + 1))
    &&& s.len() - k - 1 <= 6
    &&& s.len() >= 2
}

/// The value in millionths of an unsigned decimal such as `12`, `12.5` or `.25`.
pub open spec fn unsigned_amount(s: Seq<char>) -> Option<int> {
    if s.len() > 0 && all_digits(s) {
        Some(digits_value(s) * 1_000_000)
    } else if exists|k: int| point_at(s, k) {
        let k = choose|k: int| point_at(s, k);
        Some(
            digits_value(s.take(k)) * 1_000_000 + digits_value(s.skip(k + 1)) * pow10(
                (6 - (s.len() - k - 1)) as nat,
            ),
        )
    } else {
        None
    }
}

/// The value in millionths of a decimal with an optional sign.
pub open spec fn amount_value(s: Seq<char>) -> Option<int> {
    if s.len() > 0 && s[0] == '-' {
        match unsigned_amount(s.drop_first()) {
            Some(v) => Some(-v),
            None => None,
        }
    } else if s.len() > 0 && s[0] == '+' {
        unsigned_amount(s.drop_first())
    } else {
        unsigned_amount(s)
    }
}

/// The amount text and the code text of `"<amount> <CODE>"`: the trimmed text
/// must hold exactly one space.
pub open spec fn single_space_at(t: Seq<char>, p: int) -> bool {
    0 <= p < t.len() && t[p] == ' ' && forall|k: int| 0 <= k < t.len() && k != p ==> t[k] != ' '
}

pub open spec fn format_split(s: Seq<char>) -> Option<(Seq<char>, Seq<char>)> {
    let t = trim(s);
    if exists|p: int| single_space_at(t, p) {
        let p = choose|p: int| single_space_at(t, p);
        Some((t.take(p), t.skip(p + 1)))
    } else {
        None
    }
}

proof fn lemma_digits_nonneg(s: Seq<char>)
    requires
        all_digits(s),
    ensures
        digits_value(s) >= 0,
    decreases s.len(),
{
    if s.len() > 0 {
        assert(is_digit(s[s.len() - 1]));
        lemma_digits_nonneg(s.drop_last());
    }
}

proof fn lemma_digits_prefix(s: Seq<char>, m: int)
    requires
        all_digits(s),
        0 <= m <= s.len(),
    ensures
        digits_value(s.take(m)) <= digits_value(s),
    decreases s.len(),
{
    if m < s.len() {
        let d = s.drop_last();
        assert(is_digit(s[s.len() - 1]));
        lemma_digits_prefix(d, m);
        assert(d.take(m) =~= s.take(m));
        lemma_digits_nonneg(d);
    } else {
        assert(s.take(m) =~= s);
    }
}

fn digit_exec(d: u64) -> (c: char)
    requires
        d < 10,
    ensures
        c == digit_char(d as int),
{
    if d == 0 {
        '0'
    } else if d == 1 {
        '1'
    } else if d == 2 {
        '2'
    } else if d == 3 {
        '3'
    } else if d == 4 {
        '4'
    } else if d == 5 {
        '5'
    } else if d == 6 {
        '6'
    } else if d == 7 {
        '7'
    } else if d == 8 {
        '8'
    } else {
        '9'
    }
}

fn push_decimal(s: &mut String, n: u64)
    ensures
        final(s)@ == old(s)@ + decimal(n as nat),
    decreases n,
{
    if n >= 10 {
        push_decimal(s, n / 10);
    }
    push_char(s, digit_exec(n % 10));
    proof {
        if n >= 10 {
            assert(final(s)@ =~= old(s)@ + decimal(n as nat));
        } else {
            assert(final(s)@ =~= old(s)@ + decimal(n as nat));
        }
    }
}

fn push_fixed(s: &mut String, n: u64, w: u64)
    ensures
        final(s)@ == old(s)@ + fixed_digits(n as nat, w as nat),
    decreases w,
{
    if w > 0 {
        push_fixed(s, n / 10, w - 1);
        push_char(s, digit_exec(n % 10));
        assert(final(s)@ =~= old(s)@ + fixed_digits(n as nat, w as nat));
    } else {
        assert(final(s)@ =~= old(s)@ + fixed_digits(n as nat, w as nat));
    }
}

fn is_digit_char(c: char) -> (r: bool)
    ensures
        r == is_digit(c),
{
    '0' <= c && c <= '9'
}

fn pow10_exec(n: u64) -> (r: u64)
    requires
        n <= 6,
    ensures
        r == pow10(n as nat),
        r <= 1_000_000,
{
    proof {
        reveal_with_fuel(pow10, 7);
    }
    if n == 0 {
        1
    } else if n == 1 {
        10
    } else if n == 2 {
        100
    } else if n == 3 {
        1_000
    } else if n == 4 {
        10_000
    } else if n == 5 {
        100_000
    } else {
        1_000_000
    }
}

pub open spec fn digit_char(d: int) -> char {
    if d == 0 {
        '0'
    } else if d == 1 {
        '1'
    } else if d == 2 {
        '2'
    } else if d == 3 {
        '3'
    } else if d == 4 {
        '4'
    } else if d == 5 {
        '5'
    } else if d == 6 {
        '6'
    } else if d == 7 {
        '7'
    } else if d == 8 {
        '8'
    } else {
        '9'
    }
}

/// The decimal digits of `n`, without leading zeros.
pub open spec fn decimal(n: nat) -> Seq<char>
    decreases n,
{
    if n < 10 {
        seq![digit_char(n as int)]
    } else {
        decimal(n / 10).push(digit_char((n % 10) as int))
    }
}

/// The last `w` decimal digits of `n`, with leading zeros.
pub open spec fn fixed_digits(n: nat, w: nat) -> Seq<char>
    decreases w,
{
    if w == 0 {
        Seq::empty()
    } else {
        fixed_digits(n / 10, (w - 1) as nat).push(digit_char((n % 10) as int))
    }
}

/// How an amount is written: an optional minus sign, the whole units, a
/// point and six digits of millionths.
pub open spec fn amount_text(a: int) -> Seq<char> {
    let m = if a < 0 { -a } else { a };
    let body = decimal((m / 1_000_000) as nat).push('.') + fixed_digits((m % 1_000_000) as nat, 6);
    if a < 0 { seq!['-'] + body } else { body }
}

proof fn lemma_digit_char(d: int)
    requires
        0 <= d < 10,
    ensures
        is_digit(digit_char(d)),
        digit_value(digit_char(d)) == d,
{
}

proof fn lemma_decimal(n: nat)
    ensures
        all_digits(decimal(n)),
        digits_value(decimal(n)) == n,
        decimal(n).len() >= 1,
    decreases n,
{
    lemma_digit_char((n % 10) as int);
    if n < 10 {
        lemma_digit_char(n as int);
        assert(decimal(n).drop_last() =~= Seq::<char>::empty());
        assert(digits_value(decimal(n).drop_last()) == 0);
    } else {
        vstd::arithmetic::div_mod::lemma_fundamental_div_mod(n as int, 10);
        lemma_decimal(n / 10);
        let d = decimal(n);
        assert(d.drop_last() =~= decimal(n / 10));
        assert(d.last() == digit_char((n % 10) as int));
        assert(digits_value(d) == digits_value(d.drop_last()) * 10 + digit_value(d.last()));
        assert forall|k: int| 0 <= k < d.len() implies is_digit(#[trigger] d[k]) by {
            if k < d.len() - 1 {
                assert(d[k] == decimal(n / 10)[k]);
            }
        }
    }
}

proof fn lemma_fixed_digits(n: nat, w: nat)
    ensures
        all_digits(fixed_digits(n, w)),
        digits_value(fixed_digits(n, w)) == n % (pow10(w) as nat),
        fixed_digits(n, w).len() == w,
        pow10(w) >= 1,
    decreases w,
{
    if w > 0 {
        lemma_digit_char((n % 10) as int);
        lemma_fixed_digits(n / 10, (w - 1) as nat);
        let d = fixed_digits(n, w);
        let p = pow10((w - 1) as nat);
        assert(d.drop_last() =~= fixed_digits(n / 10, (w - 1) as nat));
        assert forall|k: int| 0 <= k < d.len() implies is_digit(#[trigger] d[k]) by {
            if k < d.len() - 1 {
                assert(d[k] == fixed_digits(n / 10, (w - 1) as nat)[k]);
            }
        }
        vstd::arithmetic::div_mod::lemma_mod_breakdown(n as int, 10, p);
        assert(pow10(w) == 10 * p);
    }
}

proof fn lemma_pow10_bound(n: nat)
    requires
        n <= 6,
    ensures
        1 <= pow10(n) <= 1_000_000,
{
    reveal_with_fuel(pow10, 7);
}

/// Where `t` has a decimal point at `m` after nothing but digits, no other
/// position can hold its point, and `t` is not all digits.
proof fn lemma_point_unique(t: Seq<char>, m: int)
    requires
        0 <= m < t.len(),
        t[m] == '.',
        all_digits(t.take(m)),
    ensures
        forall|k: int| point_at(t, k) ==> k == m,
        !all_digits(t),
{
    assert(!is_digit(t[m]));
    assert forall|k: int| point_at(t, k) implies k == m by {
        if k < m {
            assert(t.take(m)[k] == t[k]);
        } else if k > m {
            assert(t.take(k)[m] == t[m]);
        }
    }
}

/// A text whose digits run into a character that is neither a digit nor a
/// point is no decimal.
proof fn lemma_stray_char(t: Seq<char>, m: int)
    requires
        0 <= m < t.len(),
        all_digits(t.take(m)),
        !is_digit(t[m]),
        t[m] != '.',
    ensures
        unsigned_amount(t) is None,
{
    assert forall|k: int| !point_at(t, k) by {
        if point_at(t, k) {
            if k < m {
                assert(t.take(m)[k] == t[k]);
            } else if k > m {
                assert(t.take(k)[m] == t[m]);
            }
        }
    }
}

/// Where the leading digits of `t` already exceed 10^13, its value, if any,
/// exceeds 10^19 millionths.
proof fn lemma_big_prefix(t: Seq<char>, m: int)
    requires
        0 <= m <= t.len(),
        all_digits(t.take(m)),
        digits_value(t.take(m)) > 10_000_000_000_000,
    ensures
        match unsigned_amount(t) {
            Some(v) => v > 10_000_000_000_000_000_000,
            None => true,
        },
{
    if t.len() > 0 && all_digits(t) {
        lemma_digits_prefix(t, m);
    } else if exists|k: int| point_at(t, k) {
        let k = choose|k: int| point_at(t, k);
        if k < m {
            assert(t.take(m)[k] == t[k]);
        }
        let p = t.take(k);
        assert(p.take(m) =~= t.take(m));
        lemma_digits_prefix(p, m);
        lemma_digits_nonneg(t.skip(k + 1));
        lemma_pow10_bound((6 - (t.len() - k - 1)) as nat);
        let f = digits_value(t.skip(k + 1));
        let w = pow10((6 - (t.len() - k - 1)) as nat);
        assert(f * w >= 0) by (nonlinear_arith)
            requires
                f >= 0,
                w >= 1,
        ;
    }
}

/// Parses the unsigned decimal that `s` holds between `from` and `to`. `None`
/// where it is no decimal, or where its value exceeds 10^19 millionths.
fn parse_unsigned(s: &str, from: usize, to: usize) -> (r: Option<u64>)
    requires
        from <= to <= s@.len(),
    ensures
        r matches Some(v) ==> unsigned_amount(s@.subrange(from as int, to as int)) == Some(
            v as int,
        ),
        r is None ==> match unsigned_amount(s@.subrange(from as int, to as int)) {
            Some(v) => v > 10_000_000_000_000_000_000,
            None => true,
        },
{
    let ghost t = s@.subrange(from as int, to as int);
    let mut i: usize = from;
    let mut acc: u64 = 0;
    while i < to && is_digit_char(s.get_char(i))
        invariant
            from <= i <= to <= s@.len(),
            t == s@.subrange(from as int, to as int),
            all_digits(t.take(i - from)),
            acc == digits_value(t.take(i - from)),
            acc <= 10_000_000_000_000,
        decreases to - i,
    {
        let c = s.get_char(i);
        proof {
            assert(t.take(i + 1 - from).drop_last() =~= t.take(i - from));
            assert(t[i - from] == c);
        }
        let next: u64 = acc * 10 + ((c as u32) - 48) as u64;
        proof {
            assert(all_digits(t.take(i + 1 - from)));
            assert(next == digits_value(t.take(i + 1 - from)));
        }
        if next > 10_000_000_000_000 {
            proof {
                lemma_big_prefix(t, i + 1 - from);
            }
            return None;
        }
        acc = next;
        i = i + 1;
    }
    let ghost m = i - from;
    if i == to {
        if i == from {
            return None;
        }
        assert(t.take(m) =~= t);
        return Some(acc * 1_000_000);
    }
    let c = s.get_char(i);
    assert(t[m] == c);
    if c != '.' {
        proof {
            lemma_stray_char(t, m);
        }
        return None;
    }
    proof {
        lemma_point_unique(t, m);
    }
    let mut j: usize = i + 1;
    let mut f: u64 = 0;
    while j < to && is_digit_char(s.get_char(j))
        invariant
            from <= i < j <= to <= s@.len(),
            m == i - from,
            t == s@.subrange(from as int, to as int),
            t[m] == '.',
            all_digits(t.take(m)),
            acc == digits_value(t.take(m)),
            acc <= 10_000_000_000_000,
            forall|k: int| point_at(t, k) ==> k == m,
            !all_digits(t),
            all_digits(t.subrange(m + 1, j - from)),
            f == digits_value(t.subrange(m + 1, j - from)),
            j - i - 1 <= 6,
            f < pow10((j - i - 1) as nat),
        decreases to - j,
    {
        let c = s.get_char(j);
        if j - i - 1 == 6 {
            proof {
                assert(!point_at(t, m));
            }
            return None;
        }
        proof {
            assert(t.subrange(m + 1, j + 1 - from).drop_last() =~= t.subrange(m + 1, j - from));
            assert(t[j - from] == c);
            assert(pow10((j + 1 - i - 1) as nat) == 10 * pow10((j - i - 1) as nat));
            lemma_pow10_bound((j - i - 1) as nat);
        }
        f = f * 10 + ((c as u32) - 48) as u64;
        proof {
            assert(all_digits(t.subrange(m + 1, j + 1 - from)));
        }
        j = j + 1;
    }
    if j < to {
        proof {
            let c = s@[j as int];
            assert(t.skip(m + 1)[j - from - m - 1] == t[j - from]);
            assert(!point_at(t, m));
        }
        return None;
    }
    if i == from && j == i + 1 {
        assert(!point_at(t, m));
        return None;
    }
    let nf: u64 = (j - i - 1) as u64;
    let w = pow10_exec(6 - nf);
    proof {
        lemma_pow10_bound(nf as nat);
        assert(f * w <= 1_000_000 * 1_000_000) by (nonlinear_arith)
            requires
                f <= 1_000_000,
                w <= 1_000_000,
        ;
        assert(t.skip(m + 1) =~= t.subrange(m + 1, j - from));
        assert(point_at(t, m));
    }
    Some(acc * 1_000_000 + f * w)
}

/// Parses the signed decimal that `s` holds between `from` and `to`, in
/// millionths; `None` where it is no decimal or cannot be held.
fn parse_amount(s: &str, from: usize, to: usize) -> (r: Option<i64>)
    requires
        from <= to <= s@.len(),
    ensures
        match amount_value(s@.subrange(from as int, to as int)) {
            Some(v) => if fits_i64(v) {
                r == Some(v as i64)
            } else {
                r is None
            },
            None => r is None,
        },
{
    let ghost t = s@.subrange(from as int, to as int);
    if from < to {
        let c = s.get_char(from);
        assert(t[0] == c);
        assert(t.drop_first() =~= s@.subrange(from + 1, to as int));
        if c == '-' {
            return match parse_unsigned(s, from + 1, to) {
                Some(v) => if v <= 0x8000_0000_0000_0000u64 {
                    Some((0i128 - (v as i128)) as i64)
                } else {
                    None
                },
                None => None,
            };
        } else if c == '+' {
            return match parse_unsigned(s, from + 1, to) {
                Some(v) => if v <= 0x7fff_ffff_ffff_ffffu64 {
                    Some(v as i64)
                } else {
                    None
                },
                None => None,
            };
        }
    }
    match parse_unsigned(s, from, to) {
        Some(v) => if v <= 0x7fff_ffff_ffff_ffffu64 {
            Some(v as i64)
        } else {
            None
        },
        None => None,
    }
}

proof fn lemma_amount_text(a: int)
    ensures
        amount_value(amount_text(a)) == Some(a),
        amount_text(a).len() >= 1,
        forall|k: int|
            0 <= k < amount_text(a).len() ==> !is_space(#[trigger] amount_text(a)[k])
                && amount_text(a)[k] != ' ',
{
    let m: int = if a < 0 { -a } else { a };
    let i = m / 1_000_000;
    let f = m % 1_000_000;
    lemma_decimal(i as nat);
    lemma_fixed_digits(f as nat, 6);
    reveal_with_fuel(pow10, 7);
    let d = decimal(i as nat);
    let fx = fixed_digits(f as nat, 6);
    let body = d.push('.') + fx;
    let k = d.len() as int;
    assert(body.take(k) =~= d);
    assert(body.skip(k + 1) =~= fx);
    assert(body[k] == '.');
    lemma_point_unique(body, k);
    assert(point_at(body, k));
    vstd::arithmetic::div_mod::lemma_fundamental_div_mod(m, 1_000_000);
    let kk = choose|kk: int| point_at(body, kk);
    assert(kk == k);
    assert(body.len() - k - 1 == 6);
    assert(pow10(0) == 1);
    assert(pow10(6) == 1_000_000);
    vstd::arithmetic::div_mod::lemma_small_mod(f as nat, 1_000_000 as nat);
    assert(digits_value(fx) == f);
    assert(digits_value(d) == i);
    assert(unsigned_amount(body) == Some(m));
    assert forall|j: int| 0 <= j < body.len() implies !is_space(#[trigger] body[j]) && body[j]
        != ' ' && body[j] != '-' && body[j] != '+' by {
        if j < k {
            assert(body[j] == d[j]);
            assert(is_digit(d[j]));
        } else if j > k {
            assert(body[j] == fx[j - k - 1]);
            assert(is_digit(fx[j - k - 1]));
        }
    }
    if a < 0 {
        let t = seq!['-'] + body;
        assert(t.drop_first() =~= body);
        assert forall|j: int| 0 <= j < t.len() implies !is_space(#[trigger] t[j]) && t[j] != ' ' by {
            if j > 0 {
                assert(t[j] == body[j - 1]);
            }
        }
    }
}

/// The text form of an amount parses back to the same amount: it splits at
/// its one space into the amount's text and the code's text, the code's text
/// is the code itself, and the amount's text has the amount as its value.
/// (A code with a space inside would make two spaces, so such codes are
/// left out.)
pub proof fn lemma_text_round_trip(c: Currency)
    requires
        is_code_text(c.code@),
        forall|k: int| 0 <= k < 3 ==> c.code@[k] != ' ',
    ensures
        format_split(amount_text(c.amount as int) + seq![' '] + c.code@) == Some(
            (amount_text(c.amount as int), c.code@),
        ),
        names_code(c.code@),
        code_of(c.code@) == c.code@,
        amount_value(amount_text(c.amount as int)) == Some(c.amount as int),
{
    let a = amount_text(c.amount as int);
    let code = c.code@;
    let t = a + seq![' '] + code;
    let p = a.len() as int;
    lemma_amount_text(c.amount as int);
    lemma_parse_round_trip(c.code);
    assert(t[0] == a[0]);
    assert(trim_front(t) == t);
    assert(t.last() == code[2]);
    assert(trim_back(t) == t);
    assert(trim(t) == t);
    assert forall|k: int| 0 <= k < t.len() && k != p implies t[k] != ' ' by {
        if k < p {
            assert(t[k] == a[k]);
        } else {
            assert(t[k] == code[k - p - 1]);
        }
    }
    assert(t[p] == ' ');
    assert(single_space_at(t, p));
    let q = choose|q: int| single_space_at(t, q);
    assert(q == p);
    assert(t.take(p) =~= a);
    assert(t.skip(p + 1) =~= code);
}

impl Currency {
    pub fn new(code: CurrencyCode, amount: i64) -> (r: Self)
        ensures
            r.code == code,
            r.amount == amount,
    {
        Currency { code, amount }
    }

    /// The text form `"<amount> <CODE>"`, with six digits after the point.
    pub fn text(&self) -> (r: String)
        ensures
            r@ == amount_text(self.amount as int) + seq![' '] + self.code@,
    {
        let mut s = String::new();
        let negative = self.amount < 0;
        let m: u64 = if negative {
            (0i128 - (self.amount as i128)) as u64
        } else {
            self.amount as u64
        };
        if negative {
            push_char(&mut s, '-');
        }
        push_decimal(&mut s, m / 1_000_000);
        push_char(&mut s, '.');
        push_fixed(&mut s, m % 1_000_000, 6);
        push_char(&mut s, ' ');
        let code = self.code.text();
        s.append(code.as_str());
        assert(s@ =~= amount_text(self.amount as int) + seq![' '] + self.code@);
        s
    }

    /// Parses `"<amount> <CODE>"`: the text is trimmed and must then hold
    /// exactly one space; the code is checked first, then the amount, a
    /// decimal with an optional sign and at most six digits after the point.
    pub fn parse(s: &str) -> (r: Result<Currency, CurrencyParsingError>)
        ensures
            match format_split(s@) {
                None => r == Err::<Currency, CurrencyParsingError>(
                    CurrencyParsingError::IncorrectFormat,
                ),
                Some((a, c)) => if !names_code(c) {
                    r == Err::<Currency, CurrencyParsingError>(
                        CurrencyParsingError::InvalidCurrencyCode,
                    )
                } else {
                    match amount_value(a) {
                        Some(v) => if fits_i64(v) {
                            r is Ok && r->Ok_0.code@ == code_of(c) && r->Ok_0.amount == v
                        } else {
                            r == Err::<Currency, CurrencyParsingError>(
                                CurrencyParsingError::InvalidAmount,
                            )
                        },
                        None => r == Err::<Currency, CurrencyParsingError>(
                            CurrencyParsingError::InvalidAmount,
                        ),
                    }
                },
            },
    {
        let (a, b) = trim_bounds(s);
        let ghost t = s@.subrange(a as int, b as int);
        let mut found: Option<usize> = None;
        let mut k: usize = a;
        while k < b
            invariant
                a <= k <= b <= s@.len(),
                t == s@.subrange(a as int, b as int),
                t == trim(s@),
                found is None ==> forall|q: int| a <= q < k ==> s@[q] != ' ',
                found matches Some(p) ==> a <= p < k && s@[p as int] == ' ' && forall|q: int|
                    a <= q < k && q != p ==> s@[q] != ' ',
            decreases b - k,
        {
            if s.get_char(k) == ' ' {
                match found {
                    None => {
                        found = Some(k);
                    },
                    Some(p) => {
                        proof {
                            assert forall|x: int| !single_space_at(t, x) by {
                                if single_space_at(t, x) {
                                    assert(t[p - a] == ' ');
                                    assert(t[k - a] == ' ');
                                }
                            }
                        }
                        return Err(CurrencyParsingError::IncorrectFormat);
                    },
                }
            }
            k = k + 1;
        }
        let p = match found {
            None => {
                proof {
                    assert forall|x: int| !single_space_at(t, x) by {
                        if single_space_at(t, x) {
                            assert(t[x] == s@[x + a]);
                        }
                    }
                }
                return Err(CurrencyParsingError::IncorrectFormat);
            },
            Some(p) => p,
        };
        proof {
            let x = p - a;
            assert forall|q: int| 0 <= q < t.len() && q != x implies t[q] != ' ' by {
                assert(t[q] == s@[q + a]);
            }
            assert(single_space_at(t, x));
            let y = choose|y: int| single_space_at(t, y);
            if y != x {
                assert(t[y] == ' ');
            }
            assert(t.take(x) =~= s@.subrange(a as int, p as int));
            assert(t.skip(x + 1) =~= s@.subrange(p + 1, b as int));
        }
        let code_text = s.substring_char(p + 1, b);
        let code = match CurrencyCode::parse(code_text) {
            Ok(c) => c,
            Err(_) => {
                return Err(CurrencyParsingError::InvalidCurrencyCode);
            },
        };
        match parse_amount(s, a, p) {
            Some(amount) => Ok(Currency { code, amount }),
            None => Err(CurrencyParsingError::InvalidAmount),
        }
    }
}

impl std::str::FromStr for Currency {
    type Err = CurrencyParsingError;

    fn from_str(s: &str) -> Result<Self, Self::Err> {
        Self::parse(s)
    }
}

} // verus!
