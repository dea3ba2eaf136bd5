//! Fixed-point prices: decimal text with eight fractional digits, held as a
//! whole number of price units (one unit is 10^-8).
//!
//! The grammar of a price is one or more digits, optionally followed by a
//! point and one or more digits. A price with more than eight fractional
//! digits is rounded to the eighth: up where the ninth digit is 5 or more,
//! down otherwise. Text outside the grammar, or a price that comes to more
//! than `u64::MAX` units, has no value.

use vstd::prelude::*;
use vstd::string::*;

verus! {

/// Price units in one whole unit of currency.
pub const PRICE_SCALE: u64 = 100_000_000;

/// Fractional digits that a price carries.
pub const PRICE_DECIMALS: usize = 8;

/// Whether `c` is one of the ten digits.
pub open spec fn is_digit(c: char) -> bool {
    '0' <= c && c <= '9'
}

/// The number that a digit stands for; 0 for any other character.
pub open spec fn digit_value(c: char) -> nat {
    if is_digit(c) {
        (c as int - '0' as int) as nat
    } else {
        0
    }
}

/// Whether `s` holds digits only.
pub open spec fn all_digits(s: Seq<char>) -> bool {
    forall|i: int| 0 <= i < s.len() ==> is_digit(#[trigger] s[i])
}

/// The number that a string of digits writes in base ten; 0 for the empty
/// string.
pub open spec fn digits_value(s: Seq<char>) -> nat
    decreases s.len(),
{
    if s.len() == 0 {
        0
    } else {
        digits_value(s.drop_last()) * 10 + digit_value(s.last())
    }
}

/// Length of the longest prefix of `s` made of digits.
pub open spec fn digit_prefix_len(s: Seq<char>) -> nat
    decreases s.len(),
{
    if s.len() == 0 || !is_digit(s[0]) {
        0
    } else {
        1 + digit_prefix_len(s.drop_first())
    }
}

/// Whether `s` is a price: digits, then optionally a point and more digits.
pub open spec fn is_decimal_text(s: Seq<char>) -> bool {
    let k = digit_prefix_len(s) as int;
    &&& k > 0
    &&& (k == s.len() || (s[k] == '.' && k + 1 < s.len() && all_digits(
        s.subrange(k + 1, s.len() as int),
    )))
}

/// The digits before the point.
pub open spec fn int_digits(s: Seq<char>) -> Seq<char> {
    s.subrange(0, digit_prefix_len(s) as int)
}

/// The digits after the point; empty where there is no point.
pub open spec fn frac_digits(s: Seq<char>) -> Seq<char> {
    let k = digit_prefix_len(s) as int;
    if k + 1 <= s.len() {
        s.subrange(k + 1, s.len() as int)
    } else {
        Seq::empty()
    }
}

/// `n` zeros.
pub open spec fn zeros(n: nat) -> Seq<char> {
    Seq::new(n, |i: int| '0')
}

/// The digits of a price with the point moved eight places to the right:
/// the integer digits, then the first eight fractional digits, padded with
/// zeros on the right.
pub open spec fn scaled_digits(s: Seq<char>) -> Seq<char> {
    int_digits(s) + (frac_digits(s) + zeros(PRICE_DECIMALS as nat)).subrange(
        0,
        PRICE_DECIMALS as int,
    )
}

/// Whether a price is rounded up to the next unit: it has a ninth
/// fractional digit, and that digit is 5 or more.
pub open spec fn rounds_up(s: Seq<char>) -> bool {
    frac_digits(s).len() > PRICE_DECIMALS && digit_value(frac_digits(s)[PRICE_DECIMALS as int])
        >= 5
}

/// The value of a price in units, rounded to the nearest unit, halves
/// upwards.
pub open spec fn decimal_units(s: Seq<char>) -> nat {
    if rounds_up(s) {
        digits_value(scaled_digits(s)) + 1
    } else {
        digits_value(scaled_digits(s))
    }
}

/// The value of a price in units, as far as it fits in 64 bits.
pub open spec fn price_units(s: Seq<char>) -> Option<u64> {
    if is_decimal_text(s) && decimal_units(s) <= u64::MAX {
        Some(decimal_units(s) as u64)
    } else {
        None
    }
}

/// The value of a price in units, 0 where the text has no value.
pub open spec fn price_or_zero(s: Seq<char>) -> u64 {
    match price_units(s) {
        Some(v) => v,
        None => 0,
    }
}

/// One more digit at the end multiplies by ten and adds the digit.
pub proof fn lemma_digits_value_push(s: Seq<char>, c: char)
    ensures
        digits_value(s.push(c)) == digits_value(s) * 10 + digit_value(c),
{
    assert(s.push(c).drop_last() =~= s);
}

/// A longer prefix of a digit string is worth at least as much.
pub proof fn lemma_digits_value_prefix(t: Seq<char>, i: int, j: int)
    requires
        0 <= i <= j <= t.len(),
    ensures
        digits_value(t.subrange(0, i)) <= digits_value(t.subrange(0, j)),
    decreases j - i,
{
    if i < j {
        lemma_digits_value_prefix(t, i, j - 1);
        assert(t.subrange(0, j).drop_last() =~= t.subrange(0, j - 1));
    }
}

/// The digit prefix ends at `k` when everything before `k` is a digit and
/// `k` is the end or holds something else.
pub proof fn lemma_digit_prefix_len(s: Seq<char>, k: int)
    requires
        0 <= k <= s.len(),
        forall|j: int| 0 <= j < k ==> is_digit(#[trigger] s[j]),
        k == s.len() || !is_digit(s[k]),
    ensures
        digit_prefix_len(s) == k,
    decreases k,
{
    if k > 0 {
        let rest = s.drop_first();
        assert forall|j: int| 0 <= j < k - 1 implies is_digit(#[trigger] rest[j]) by {
            assert(rest[j] == s[j + 1]);
        }
        lemma_digit_prefix_len(rest, k - 1);
    }
}

fn is_digit_byte(b: u8) -> (r: bool)
    ensures
        r == (0x30 <= b <= 0x39),
{
    b >= 0x30 && b <= 0x39
}

/// Writes the digit `b` after the number `acc`, if the result fits.
fn append_digit(acc: u64, b: u8) -> (next: Option<u64>)
    requires
        0x30 <= b <= 0x39,
    ensures
        next == if acc * 10 + (b - 0x30) <= u64::MAX {
            Some((acc * 10 + (b - 0x30)) as u64)
        } else {
            None
        },
{
    let d: u64 = (b - 0x30) as u64;
    if acc > (u64::MAX - d) / 10 {
        None
    } else {
        Some(acc * 10 + d)
    }
}

/// Reads a price, rounded to the nearest unit. `None` where `text` is no
/// price or comes to more than `u64::MAX` units.
pub fn parse_price(text: &str) -> (r: Option<u64>)
    ensures
        r == price_units(text@),
{
    broadcast use is_ascii_spec_bytes;

    let ghost s = text@;
    if !text.is_ascii() {
        proof {
            lemma_non_ascii_is_no_price(s);
        }
        return None;
    }
    let bytes = text.as_bytes();
    let n = bytes.len();
    assert(n == s.len());
    assert forall|j: int| 0 <= j < n implies #[trigger] bytes@[j] as int == s[j] as int by {
        assert('\0' <= s[j] <= '\u{7f}');
    }
    let mut k: usize = 0;
    while k < n
        invariant_except_break
            k <= n,
        invariant
            n == s.len(),
            n == bytes@.len(),
            forall|j: int| 0 <= j < n ==> #[trigger] bytes@[j] as int == s[j] as int,
            forall|j: int| 0 <= j < k ==> is_digit(#[trigger] s[j]),
        ensures
            k <= n,
            k == n || !is_digit(s[k as int]),
        decreases n - k,
    {
        if !is_digit_byte(bytes[k]) {
            break;
        }
        k = k + 1;
    }
    proof {
        lemma_digit_prefix_len(s, k as int);
    }
    if k == 0 {
        return None;
    }
    if k < n {
        if bytes[k] != 0x2e || k + 1 >= n {
            return None;
        }
        let mut m: usize = k + 1;
        while m < n
            invariant
                k + 1 <= m <= n,
                s == text@,
                k == digit_prefix_len(s),
                s[k as int] == '.',
                n == s.len(),
                n == bytes@.len(),
                forall|j: int| 0 <= j < n ==> #[trigger] bytes@[j] as int == s[j] as int,
                forall|j: int| k + 1 <= j < m ==> is_digit(#[trigger] s[j]),
            decreases n - m,
        {
            if !is_digit_byte(bytes[m]) {
                proof {
                    let f = s.subrange(k + 1, n as int);
                    assert(f[m - (k + 1)] == s[m as int]);
                    assert(!is_digit(f[m - (k + 1)]));
                    assert(!all_digits(f));
                }
                return None;
            }
            m = m + 1;
        }
        proof {
            let f = s.subrange(k + 1, n as int);
            assert forall|j: int| 0 <= j < f.len() implies is_digit(#[trigger] f[j]) by {
                assert(f[j] == s[j + k + 1]);
            }
        }
    }
    assert(is_decimal_text(s));
    let ghost t = scaled_digits(s);
    assert(t.len() == k + PRICE_DECIMALS);
    let mut acc: u64 = 0;
    let mut j: usize = 0;
    while j < k
        invariant
            j <= k <= n,
            s == text@,
            n == s.len(),
            n == bytes@.len(),
            forall|i: int| 0 <= i < n ==> #[trigger] bytes@[i] as int == s[i] as int,
            k == digit_prefix_len(s),
            forall|i: int| 0 <= i < k ==> is_digit(#[trigger] s[i]),
            t == scaled_digits(s),
            t.len() == k + PRICE_DECIMALS,
            acc == digits_value(t.subrange(0, j as int)),
        decreases k - j,
    {
        let b: u8 = bytes[j];
        proof {
            let c = t[j as int];
            assert(c == s[j as int]);
            assert(b as int == c as int);
            assert(t.subrange(0, j + 1) =~= t.subrange(0, j as int).push(c));
            lemma_digits_value_push(t.subrange(0, j as int), c);
            lemma_digits_value_prefix(t, j + 1, t.len() as int);
            assert(t.subrange(0, t.len() as int) =~= t);
        }
        acc = match append_digit(acc, b) {
            Some(next) => next,
            None => {
                return None;
            },
        };
        j = j + 1;
    }
    let frac_len: usize = if k < n {
        n - k - 1
    } else {
        0
    };
    let mut idx: usize = 0;
    while idx < PRICE_DECIMALS
        invariant
            idx <= PRICE_DECIMALS,
            s == text@,
            0 < k <= n,
            n == s.len(),
            n == bytes@.len(),
            frac_len == frac_digits(s).len(),
            k + frac_len <= n,
            k < n ==> k + 1 + frac_len == n,
            forall|i: int| 0 <= i < n ==> #[trigger] bytes@[i] as int == s[i] as int,
            k == digit_prefix_len(s),
            all_digits(frac_digits(s)),
            t == scaled_digits(s),
            t.len() == k + PRICE_DECIMALS,
            acc == digits_value(t.subrange(0, k + idx)),
        decreases PRICE_DECIMALS - idx,
    {
        let b: u8 = if idx < frac_len {
            bytes[k + 1 + idx]
        } else {
            0x30
        };
        proof {
            let c = t[k + idx];
            let padded = frac_digits(s) + zeros(PRICE_DECIMALS as nat);
            assert(c == padded[idx as int]);
            if idx < frac_len {
                assert(frac_digits(s)[idx as int] == s[k + 1 + idx]);
                assert(is_digit(frac_digits(s)[idx as int]));
            }
            assert(b as int == c as int);
            assert(t.subrange(0, k + idx + 1) =~= t.subrange(0, k + idx).push(c));
            lemma_digits_value_push(t.subrange(0, k + idx), c);
            lemma_digits_value_prefix(t, k + idx + 1, t.len() as int);
            assert(t.subrange(0, t.len() as int) =~= t);
        }
        acc = match append_digit(acc, b) {
            Some(next) => next,
            None => {
                return None;
            },
        };
        idx = idx + 1;
    }
    assert(t.subrange(0, k + PRICE_DECIMALS) =~= t);
    if frac_len > PRICE_DECIMALS {
        let ninth: u8 = bytes[k + 1 + PRICE_DECIMALS];
        proof {
            let c = frac_digits(s)[PRICE_DECIMALS as int];
            assert(c == s[k + 1 + PRICE_DECIMALS]);
            assert(is_digit(c));
            assert(ninth as int == c as int);
            assert(digit_value(c) == ninth - 0x30);
        }
        if ninth >= 0x35 {
            if acc == u64::MAX {
                return None;
            }
            return Some(acc + 1);
        }
    }
    Some(acc)
}

/// Reads a price, taking text without a value as 0.
pub fn parse_price_or_zero(text: &str) -> (r: u64)
    ensures
        r == price_or_zero(text@),
{
    match parse_price(text) {
        Some(v) => v,
        None => 0,
    }
}

proof fn lemma_non_ascii_is_no_price(s: Seq<char>)
    requires
        !vstd::utf8::is_ascii_chars(s),
    ensures
        !is_decimal_text(s),
{
    let i = choose|i: int| 0 <= i < s.len() && !('\0' <= #[trigger] s[i] <= '\u{7f}');
    let k = digit_prefix_len(s) as int;
    lemma_digit_prefix_bounds(s);
    if is_decimal_text(s) {
        if i < k {
            assert(is_digit(s[i]));
        } else if i == k {
            assert(s[i] == '.');
        } else {
            let f = s.subrange(k + 1, s.len() as int);
            assert(f[i - (k + 1)] == s[i]);
            assert(is_digit(f[i - (k + 1)]));
        }
    }
}

/// The digit prefix lies inside the string, holds digits only, and stops at
/// the end or before something else.
pub proof fn lemma_digit_prefix_bounds(s: Seq<char>)
    ensures
        digit_prefix_len(s) <= s.len(),
        forall|j: int| 0 <= j < digit_prefix_len(s) ==> is_digit(#[trigger] s[j]),
        digit_prefix_len(s) == s.len() || !is_digit(s[digit_prefix_len(s) as int]),
    decreases s.len(),
{
    if s.len() == 0 || !is_digit(s[0]) {
    } else {
        let rest = s.drop_first();
        lemma_digit_prefix_bounds(rest);
        assert forall|j: int| 0 <= j < digit_prefix_len(s) implies is_digit(#[trigger] s[j]) by {
            if j > 0 {
                assert(s[j] == rest[j - 1]);
            }
        }
        if digit_prefix_len(s) < s.len() {
            assert(s[digit_prefix_len(s) as int] == rest[digit_prefix_len(rest) as int]);
        }
    }
}

/// The character that writes the digit `d`.
pub open spec fn digit_char(d: nat) -> char {
    ('0' as nat + d) as char
}

/// `n` in base ten without leading zeros; "0" for 0.
pub open spec fn decimal_digits(n: nat) -> Seq<char>
    decreases n,
{
    if n < 10 {
        seq![digit_char(n)]
    } else {
        decimal_digits(n / 10).push(digit_char(n % 10))
    }
}

/// The last `width` digits of `n` in base ten, zeros on the left included.
pub open spec fn fixed_digits(n: nat, width: nat) -> Seq<char>
    decreases width,
{
    if width == 0 {
        Seq::empty()
    } else {
        fixed_digits(n / 10, (width - 1) as nat).push(digit_char(n % 10))
    }
}

/// A price written out: the whole units, a point, eight fractional digits.
pub open spec fn price_text(v: u64) -> Seq<char> {
    decimal_digits((v / PRICE_SCALE) as nat) + seq!['.'] + fixed_digits(
        (v % PRICE_SCALE) as nat,
        PRICE_DECIMALS as nat,
    )
}

fn push_digit(out: &mut String, d: u64)
    requires
        d < 10,
    ensures
        final(out)@ == old(out)@.push(digit_char(d as nat)),
{
    let b: u8 = 0x30 + d as u8;
    out.push(b as char);
}

pub(crate) fn push_decimal_digits(out: &mut String, n: u64)
    ensures
        final(out)@ == old(out)@ + decimal_digits(n as nat),
    decreases n,
{
    if n >= 10 {
        push_decimal_digits(out, n / 10);
    }
    push_digit(out, n % 10);
}

pub(crate) fn push_fixed_digits(out: &mut String, n: u64, width: usize)
    ensures
        final(out)@ == old(out)@ + fixed_digits(n as nat, width as nat),
    decreases width,
{
    if width > 0 {
        push_fixed_digits(out, n / 10, width - 1);
        push_digit(out, n % 10);
    }
}

/// Writes a price with eight fractional digits.
pub fn format_price(v: u64) -> (r: String)
    ensures
        r@ == price_text(v),
{
    let mut out = String::new();
    push_decimal_digits(&mut out, v / PRICE_SCALE);
    out.push('.');
    push_fixed_digits(&mut out, v % PRICE_SCALE, PRICE_DECIMALS);
    out
}

/// Ten to the power of `e`.
pub open spec fn pow10(e: nat) -> nat
    decreases e,
{
    if e == 0 {
        1
    } else {
        10 * pow10((e - 1) as nat)
    }
}

/// The character of a digit is a digit and stands for it.
pub proof fn lemma_digit_char(d: nat)
    requires
        d < 10,
    ensures
        is_digit(digit_char(d)),
        digit_value(digit_char(d)) == d,
{
}

/// A number written in base ten is made of digits and reads back as itself.
pub proof fn lemma_decimal_digits(n: nat)
    ensures
        decimal_digits(n).len() >= 1,
        all_digits(decimal_digits(n)),
        digits_value(decimal_digits(n)) == n,
    decreases n,
{
    lemma_digit_char(n % 10);
    if n < 10 {
        assert(decimal_digits(n) =~= Seq::<char>::empty().push(digit_char(n)));
        lemma_digits_value_push(Seq::<char>::empty(), digit_char(n));
    } else {
        lemma_decimal_digits(n / 10);
        lemma_digits_value_push(decimal_digits(n / 10), digit_char(n % 10));
    }
}

/// A number written with a fixed width that holds it is made of that many
/// digits and reads back as itself.
pub proof fn lemma_fixed_digits(n: nat, width: nat)
    requires
        n < pow10(width),
    ensures
        fixed_digits(n, width).len() == width,
        all_digits(fixed_digits(n, width)),
        digits_value(fixed_digits(n, width)) == n,
    decreases width,
{
    if width > 0 {
        lemma_digit_char(n % 10);
        lemma_fixed_digits(n / 10, (width - 1) as nat);
        lemma_digits_value_push(fixed_digits(n / 10, (width - 1) as nat), digit_char(n % 10));
    }
}

/// Writing `b` after `a` shifts `a` by one decimal place for each character
/// of `b`.
pub proof fn lemma_digits_value_concat(a: Seq<char>, b: Seq<char>)
    ensures
        digits_value(a + b) == digits_value(a) * pow10(b.len()) + digits_value(b),
    decreases b.len(),
{
    if b.len() == 0 {
        assert(a + b =~= a);
        assert(pow10(b.len()) == 1);
        assert(digits_value(b) == 0);
    } else {
        let front = b.drop_last();
        let p = pow10(front.len());
        lemma_digits_value_concat(a, front);
        assert((a + b).drop_last() =~= a + front);
        assert((a + b).last() == b.last());
        assert(pow10(b.len()) == 10 * p);
        assert(digits_value(a) * (10 * p) == (digits_value(a) * p) * 10) by (nonlinear_arith);
        assert(digits_value(a + b) == digits_value(a + front) * 10 + digit_value(b.last()));
        assert(digits_value(b) == digits_value(front) * 10 + digit_value(b.last()));
    }
}

/// A price that was written out reads back as itself.
pub proof fn lemma_price_text_round_trip(v: u64)
    ensures
        is_decimal_text(price_text(v)),
        price_units(price_text(v)) == Some(v),
        price_or_zero(price_text(v)) == v,
{
    let whole = decimal_digits((v / PRICE_SCALE) as nat);
    let frac = fixed_digits((v % PRICE_SCALE) as nat, PRICE_DECIMALS as nat);
    let s = price_text(v);
    let k = whole.len() as int;
    assert(pow10(8) == 100_000_000) by {
        reveal_with_fuel(pow10, 9);
    }
    lemma_decimal_digits((v / PRICE_SCALE) as nat);
    lemma_fixed_digits((v % PRICE_SCALE) as nat, PRICE_DECIMALS as nat);
    assert(s.len() == k + 9);
    assert forall|j: int| 0 <= j < k implies is_digit(#[trigger] s[j]) by {
        assert(s[j] == whole[j]);
    }
    assert(s[k] == '.');
    lemma_digit_prefix_len(s, k);
    assert(s.subrange(k + 1, s.len() as int) =~= frac);
    assert(int_digits(s) =~= whole);
    assert(frac_digits(s) =~= frac);
    assert((frac + zeros(PRICE_DECIMALS as nat)).subrange(0, PRICE_DECIMALS as int) =~= frac);
    assert(scaled_digits(s) =~= whole + frac);
    lemma_digits_value_concat(whole, frac);
}

} // verus!
