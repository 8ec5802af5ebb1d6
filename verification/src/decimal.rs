use vstd::prelude::*;
use vstd::arithmetic::div_mod::{lemma_fundamental_div_mod, lemma_mod_bound};
use crate::text::{chars_of, string_of};

verus! {

/// Largest mantissa magnitude the library's decimals carry: 28 nines.
pub const MAX_MANTISSA: i128 = 9999999999999999999999999999;

/// One tenth of `MAX_MANTISSA + 1`; an accumulated digit value at or above it
/// cannot take another digit.
const DIGIT_CAP: i128 = 1000000000000000000000000000;

/// Largest number of decimal places the library's decimals carry.
pub const MAX_SCALE: u32 = 28;

/// Ten raised to `e`, as an unbounded integer.
pub open spec fn pow10(e: nat) -> int
    decreases e,
{
    if e == 0 {
        1
    } else {
        10 * pow10((e - 1) as nat)
    }
}

pub proof fn lemma_pow10_pos(e: nat)
    ensures
        pow10(e) >= 1,
    decreases e,
{
    if e > 0 {
        lemma_pow10_pos((e - 1) as nat);
    }
}

pub proof fn lemma_pow10_adds(a: nat, b: nat)
    ensures
        pow10(a + b) == pow10(a) * pow10(b),
    decreases a,
{
    if a == 0 {
        assert(pow10(0 + b) == 1 * pow10(b));
    } else {
        lemma_pow10_adds((a - 1) as nat, b);
        assert(pow10(a + b) == 10 * pow10(((a + b) - 1) as nat));
        assert(pow10(a) * pow10(b) == 10 * (pow10((a - 1) as nat) * pow10(b)))
            by (nonlinear_arith)
            requires
                pow10(a) == 10 * pow10((a - 1) as nat),
        ;
    }
}

pub proof fn lemma_pow10_increases(a: nat, b: nat)
    requires
        a <= b,
    ensures
        pow10(a) <= pow10(b),
{
    lemma_pow10_adds(a, (b - a) as nat);
    lemma_pow10_pos((b - a) as nat);
    lemma_pow10_pos(a);
    assert(pow10(a) * 1 <= pow10(a) * pow10((b - a) as nat)) by (nonlinear_arith)
        requires
            pow10(a) >= 1,
            pow10((b - a) as nat) >= 1,
    ;
}

pub proof fn lemma_pow10_28()
    ensures
        pow10(28) == MAX_MANTISSA as int + 1,
{
    reveal_with_fuel(pow10, 32);
}

/// Ten to the `e`, executable; `e` at most `MAX_SCALE`.
pub fn pow10_i128(e: u32) -> (r: i128)
    requires
        e <= MAX_SCALE,
    ensures
        r == pow10(e as nat),
        1 <= r <= MAX_MANTISSA as int + 1,
{
    proof {
        lemma_pow10_28();
    }
    let mut r: i128 = 1;
    let mut i: u32 = 0;
    while i < e
        invariant
            i <= e <= MAX_SCALE,
            r == pow10(i as nat),
        decreases e - i,
    {
        proof {
            lemma_pow10_28();
            lemma_pow10_pos(i as nat);
            lemma_pow10_increases(i as nat + 1, 28);
            assert(pow10(i as nat + 1) == 10 * pow10(i as nat));
        }
        r = r * 10;
        i += 1;
    }
    proof {
        lemma_pow10_increases(e as nat, 28);
        lemma_pow10_pos(e as nat);
    }
    r
}

// ---------------------------------------------------------------------------
// Decimal values
// ---------------------------------------------------------------------------

/// An exact decimal number `mantissa / 10^scale`, the library's own carrier
/// for monetary amounts.
#[derive(Clone, Copy, Debug, PartialEq, Eq, Structural)]
pub struct DecimalValue {
    pub mantissa: i128,
    pub scale: u32,
}

/// The mathematical content of a `DecimalValue`.
pub struct DecV {
    pub m: int,
    pub s: nat,
}

impl View for DecimalValue {
    type V = DecV;

    open spec fn view(&self) -> DecV {
        DecV { m: self.mantissa as int, s: self.scale as nat }
    }
}

pub open spec fn dv_wf(d: DecV) -> bool {
    &&& -(MAX_MANTISSA as int) <= d.m <= MAX_MANTISSA as int
    &&& d.s <= MAX_SCALE as nat
}

/// `a <= b` as rational numbers: `a.m / 10^a.s <= b.m / 10^b.s`.
pub open spec fn dv_le(a: DecV, b: DecV) -> bool {
    a.m * pow10(b.s) <= b.m * pow10(a.s)
}

/// The exact sum, at the larger of the two scales.
pub open spec fn dv_sum(a: DecV, b: DecV) -> DecV {
    let s = if a.s >= b.s {
        a.s
    } else {
        b.s
    };
    DecV { m: a.m * pow10((s - a.s) as nat) + b.m * pow10((s - b.s) as nat), s }
}

/// Whether the rescaled parts and the sum all stay within the mantissa range.
pub open spec fn dv_sum_fits(a: DecV, b: DecV) -> bool {
    let s = if a.s >= b.s {
        a.s
    } else {
        b.s
    };
    let ra = a.m * pow10((s - a.s) as nat);
    let rb = b.m * pow10((s - b.s) as nat);
    &&& -(MAX_MANTISSA as int) <= ra <= MAX_MANTISSA as int
    &&& -(MAX_MANTISSA as int) <= rb <= MAX_MANTISSA as int
    &&& -(MAX_MANTISSA as int) <= ra + rb <= MAX_MANTISSA as int
}

/// The exact product, at the sum of the two scales.
pub open spec fn dv_prod(a: DecV, b: DecV) -> DecV {
    DecV { m: a.m * b.m, s: a.s + b.s }
}

pub open spec fn dv_prod_fits(a: DecV, b: DecV) -> bool {
    &&& a.s + b.s <= MAX_SCALE as nat
    &&& -(MAX_MANTISSA as int) <= a.m * b.m <= MAX_MANTISSA as int
}

/// `m * p` when the product's magnitude stays within the mantissa range,
/// `None` otherwise; `p` is positive.
fn scaled_product(m: i128, p: i128) -> (r: Option<i128>)
    requires
        -MAX_MANTISSA <= m <= MAX_MANTISSA,
        1 <= p,
    ensures
        match r {
            Some(v) => v as int == m as int * p as int && -(MAX_MANTISSA as int) <= m as int
                * p as int <= MAX_MANTISSA as int,
            None => !(-(MAX_MANTISSA as int) <= m as int * p as int <= MAX_MANTISSA as int),
        },
{
    let q = MAX_MANTISSA / p;
    proof {
        lemma_fundamental_div_mod(MAX_MANTISSA as int, p as int);
        lemma_mod_bound(MAX_MANTISSA as int, p as int);
    }
    if m >= 0 {
        if m > q {
            proof {
                assert(m as int * p as int > MAX_MANTISSA as int) by (nonlinear_arith)
                    requires
                        m as int >= MAX_MANTISSA as int / p as int + 1,
                        MAX_MANTISSA as int == p as int * (MAX_MANTISSA as int / p as int)
                            + MAX_MANTISSA as int % p as int,
                        0 <= MAX_MANTISSA as int % (p as int) < (p as int),
                        p as int >= 1,
                ;
            }
            None
        } else {
            proof {
                assert(0 <= m as int * p as int <= MAX_MANTISSA as int) by (nonlinear_arith)
                    requires
                        0 <= m as int <= MAX_MANTISSA as int / p as int,
                        MAX_MANTISSA as int == p as int * (MAX_MANTISSA as int / p as int)
                            + MAX_MANTISSA as int % p as int,
                        0 <= MAX_MANTISSA as int % (p as int) < (p as int),
                        p as int >= 1,
                ;
            }
            Some(m * p)
        }
    } else {
        let neg = -m;
        if neg > q {
            proof {
                assert(neg as int * p as int > MAX_MANTISSA as int) by (nonlinear_arith)
                    requires
                        neg as int >= MAX_MANTISSA as int / p as int + 1,
                        MAX_MANTISSA as int == p as int * (MAX_MANTISSA as int / p as int)
                            + MAX_MANTISSA as int % p as int,
                        0 <= MAX_MANTISSA as int % (p as int) < (p as int),
                        p as int >= 1,
                ;
                assert(m as int * p as int == -(neg as int * p as int)) by (nonlinear_arith)
                    requires
                        neg as int == -(m as int),
                ;
            }
            None
        } else {
            proof {
                assert(0 <= neg as int * p as int <= MAX_MANTISSA as int) by (nonlinear_arith)
                    requires
                        0 <= neg as int <= MAX_MANTISSA as int / p as int,
                        MAX_MANTISSA as int == p as int * (MAX_MANTISSA as int / p as int)
                            + MAX_MANTISSA as int % p as int,
                        0 <= MAX_MANTISSA as int % (p as int) < (p as int),
                        p as int >= 1,
                ;
                assert(m as int * p as int == -(neg as int * p as int)) by (nonlinear_arith)
                    requires
                        neg as int == -(m as int),
                ;
            }
            Some(m * p)
        }
    }
}

proof fn lemma_mul_le_cancel(a: int, b: int, c: int)
    requires
        c >= 1,
    ensures
        (a * c <= b * c) <==> (a <= b),
{
    assert((a * c <= b * c) <==> (a <= b)) by (nonlinear_arith)
        requires
            c >= 1,
    ;
}

impl DecimalValue {
    pub open spec fn wf(self) -> bool {
        dv_wf(self@)
    }

    /// A decimal from its parts; `None` when outside the carried range.
    pub fn new(mantissa: i128, scale: u32) -> (r: Option<DecimalValue>)
        ensures
            r is Some <==> dv_wf(DecV { m: mantissa as int, s: scale as nat }),
            r is Some ==> r.unwrap()@ == (DecV { m: mantissa as int, s: scale as nat })
                && r.unwrap().wf(),
    {
        if -MAX_MANTISSA <= mantissa && mantissa <= MAX_MANTISSA && scale <= MAX_SCALE {
            Some(DecimalValue { mantissa, scale })
        } else {
            None
        }
    }

    /// The whole number `n`, at scale zero.
    pub fn from_u64(n: u64) -> (r: DecimalValue)
        ensures
            r@ == (DecV { m: n as int, s: 0 }),
            r.wf(),
    {
        DecimalValue { mantissa: n as i128, scale: 0 }
    }

    /// Whether `self <= other` as rational numbers.
    pub fn le(self, other: DecimalValue) -> (r: bool)
        requires
            self.wf(),
            other.wf(),
        ensures
            r == dv_le(self@, other@),
    {
        if self.scale == other.scale {
            proof {
                lemma_pow10_pos(self@.s);
                lemma_mul_le_cancel(self@.m, other@.m, pow10(self@.s));
            }
            self.mantissa <= other.mantissa
        } else if self.scale < other.scale {
            let p = pow10_i128(other.scale - self.scale);
            proof {
                lemma_pow10_adds(self@.s, (other@.s - self@.s) as nat);
                lemma_pow10_pos(self@.s);
                // self.m * 10^(s2-s1) <= other.m  <==>  dv_le(self, other)
                assert(self@.m * pow10(other@.s) == (self@.m * pow10((other@.s - self@.s) as nat))
                    * pow10(self@.s)) by (nonlinear_arith)
                    requires
                        pow10(other@.s) == pow10(self@.s) * pow10((other@.s - self@.s) as nat),
                ;
                lemma_mul_le_cancel(
                    self@.m * pow10((other@.s - self@.s) as nat),
                    other@.m,
                    pow10(self@.s),
                );
            }
            match scaled_product(self.mantissa, p) {
                Some(v) => v <= other.mantissa,
                None => {
                    // the rescaled left side is beyond the mantissa range,
                    // so its sign settles the comparison
                    proof {
                        if self.mantissa >= 0 {
                            assert(self@.m * pow10((other@.s - self@.s) as nat) >= 0)
                                by (nonlinear_arith)
                                requires
                                    self@.m >= 0,
                                    pow10((other@.s - self@.s) as nat) >= 1,
                            ;
                        } else {
                            assert(self@.m * pow10((other@.s - self@.s) as nat) <= 0)
                                by (nonlinear_arith)
                                requires
                                    self@.m <= 0,
                                    pow10((other@.s - self@.s) as nat) >= 1,
                            ;
                        }
                    }
                    self.mantissa < 0
                },
            }
        } else {
            let p = pow10_i128(self.scale - other.scale);
            proof {
                lemma_pow10_adds(other@.s, (self@.s - other@.s) as nat);
                lemma_pow10_pos(other@.s);
                assert(other@.m * pow10(self@.s) == (other@.m * pow10((self@.s - other@.s) as nat))
                    * pow10(other@.s)) by (nonlinear_arith)
                    requires
                        pow10(self@.s) == pow10(other@.s) * pow10((self@.s - other@.s) as nat),
                ;
                lemma_mul_le_cancel(
                    self@.m,
                    other@.m * pow10((self@.s - other@.s) as nat),
                    pow10(other@.s),
                );
            }
            match scaled_product(other.mantissa, p) {
                Some(v) => self.mantissa <= v,
                None => {
                    proof {
                        if other.mantissa >= 0 {
                            assert(other@.m * pow10((self@.s - other@.s) as nat) >= 0)
                                by (nonlinear_arith)
                                requires
                                    other@.m >= 0,
                                    pow10((self@.s - other@.s) as nat) >= 1,
                            ;
                        } else {
                            assert(other@.m * pow10((self@.s - other@.s) as nat) <= 0)
                                by (nonlinear_arith)
                                requires
                                    other@.m <= 0,
                                    pow10((self@.s - other@.s) as nat) >= 1,
                            ;
                        }
                    }
                    other.mantissa >= 0
                },
            }
        }
    }

    /// The exact sum at the larger scale, `None` when a rescaled part or the
    /// sum leaves the mantissa range.
    pub fn checked_add(self, other: DecimalValue) -> (r: Option<DecimalValue>)
        requires
            self.wf(),
            other.wf(),
        ensures
            r is Some <==> dv_sum_fits(self@, other@),
            r is Some ==> r.unwrap()@ == dv_sum(self@, other@) && r.unwrap().wf(),
    {
        let s = if self.scale >= other.scale {
            self.scale
        } else {
            other.scale
        };
        let pa = pow10_i128(s - self.scale);
        let pb = pow10_i128(s - other.scale);
        let ra = match scaled_product(self.mantissa, pa) {
            Some(v) => v,
            None => {
                return None;
            },
        };
        let rb = match scaled_product(other.mantissa, pb) {
            Some(v) => v,
            None => {
                return None;
            },
        };
        let sum = ra + rb;
        if sum < -MAX_MANTISSA || sum > MAX_MANTISSA {
            None
        } else {
            Some(DecimalValue { mantissa: sum, scale: s })
        }
    }

    /// The exact product at the summed scale, `None` when the scale or the
    /// mantissa leaves the carried range.
    pub fn checked_mul(self, other: DecimalValue) -> (r: Option<DecimalValue>)
        requires
            self.wf(),
            other.wf(),
        ensures
            r is Some <==> dv_prod_fits(self@, other@),
            r is Some ==> r.unwrap()@ == dv_prod(self@, other@) && r.unwrap().wf(),
    {
        if other.scale > MAX_SCALE - self.scale {
            return None;
        }
        let s = self.scale + other.scale;
        if other.mantissa == 0 {
            proof {
                assert(self@.m * 0 == 0) by (nonlinear_arith);
            }
            return Some(DecimalValue { mantissa: 0, scale: s });
        }
        let mag = if other.mantissa >= 0 {
            other.mantissa
        } else {
            -other.mantissa
        };
        proof {
            assert(self@.m * other@.m == if other@.m >= 0 {
                self@.m * (mag as int)
            } else {
                -(self@.m * (mag as int))
            }) by (nonlinear_arith)
            requires
                mag as int == if other@.m >= 0 {
                    other@.m
                } else {
                    -other@.m
                },
                other@.m != 0,
            ;
        }
        match scaled_product(self.mantissa, mag) {
            Some(v) => {
                if other.mantissa >= 0 {
                    Some(DecimalValue { mantissa: v, scale: s })
                } else {
                    Some(DecimalValue { mantissa: -v, scale: s })
                }
            },
            None => None,
        }
    }
}

// ---------------------------------------------------------------------------
// Decimal digits
// ---------------------------------------------------------------------------

pub open spec fn digit_char(d: int) -> char {
    if d == 0 {
        '0'
    } else if d == 1 {
        '1'
    } else if d == 2 {
        '2'
    } else if d == 3 {
        '3'
    } else if d == 4 {
        '4'
    } else if d == 5 {
        '5'
    } else if d == 6 {
        '6'
    } else if d == 7 {
        '7'
    } else if d == 8 {
        '8'
    } else {
        '9'
    }
}

/// The value of a decimal digit character, `-1` for any other character.
pub open spec fn char_digit(c: char) -> int {
    if c == '0' {
        0
    } else if c == '1' {
        1
    } else if c == '2' {
        2
    } else if c == '3' {
        3
    } else if c == '4' {
        4
    } else if c == '5' {
        5
    } else if c == '6' {
        6
    } else if c == '7' {
        7
    } else if c == '8' {
        8
    } else if c == '9' {
        9
    } else {
        -1
    }
}

pub open spec fn is_digit_char(c: char) -> bool {
    char_digit(c) >= 0
}

/// The decimal digits of `n >= 0`, most significant first, without leading
/// zeros ("0" for zero).
pub open spec fn dec_digits(n: int) -> Seq<char>
    decreases n when n >= 0 via dec_digits_dec
{
    if n < 10 {
        seq![digit_char(n)]
    } else {
        dec_digits(n / 10).push(digit_char(n % 10))
    }
}

#[via_fn]
proof fn dec_digits_dec(n: int) {
    if n >= 10 {
        lemma_fundamental_div_mod(n, 10);
        lemma_mod_bound(n, 10);
    }
}

/// The number a digit sequence denotes.
pub open spec fn digits_val(s: Seq<char>) -> int
    decreases s.len(),
{
    if s.len() == 0 {
        0
    } else {
        digits_val(s.drop_last()) * 10 + char_digit(s.last())
    }
}

pub open spec fn all_digits(s: Seq<char>) -> bool {
    forall|i: int| 0 <= i < s.len() ==> is_digit_char(#[trigger] s[i])
}

pub open spec fn zero_chars(k: nat) -> Seq<char> {
    Seq::new(k, |i: int| '0')
}

pub proof fn lemma_dec_digits(n: int)
    requires
        n >= 0,
    ensures
        all_digits(dec_digits(n)),
        digits_val(dec_digits(n)) == n,
        dec_digits(n).len() >= 1,
    decreases n,
{
    if n < 10 {
        let s = dec_digits(n);
        assert(s.len() == 1);
        assert(s.last() == digit_char(n));
        assert(s.drop_last() =~= Seq::<char>::empty());
        assert(digits_val(s.drop_last()) == 0);
        assert(digits_val(s) == char_digit(digit_char(n)));
        assert(char_digit(digit_char(n)) == n);
    } else {
        lemma_fundamental_div_mod(n, 10);
        lemma_mod_bound(n, 10);
        lemma_dec_digits(n / 10);
        let s = dec_digits(n);
        assert(s.drop_last() =~= dec_digits(n / 10));
        assert(s.last() == digit_char(n % 10));
        assert(char_digit(digit_char(n % 10)) == n % 10);
    }
}

pub proof fn lemma_digits_val_nonneg(s: Seq<char>)
    requires
        all_digits(s),
    ensures
        digits_val(s) >= 0,
    decreases s.len(),
{
    if s.len() > 0 {
        assert(all_digits(s.drop_last())) by {
            assert(forall|i: int| 0 <= i < s.len() - 1 ==> s.drop_last()[i] == s[i]);
        }
        lemma_digits_val_nonneg(s.drop_last());
    }
}

pub proof fn lemma_digits_val_concat(a: Seq<char>, b: Seq<char>)
    ensures
        digits_val(a + b) == digits_val(a) * pow10(b.len()) + digits_val(b),
    decreases b.len(),
{
    if b.len() == 0 {
        assert(a + b =~= a);
    } else {
        lemma_digits_val_concat(a, b.drop_last());
        assert((a + b).drop_last() =~= a + b.drop_last());
        assert((a + b).last() == b.last());
        assert(digits_val(a + b) == digits_val(a + b.drop_last()) * 10 + char_digit(b.last()));
        assert(pow10(b.len()) == pow10(b.drop_last().len() + 1));
        assert(pow10(b.drop_last().len() + 1) == 10 * pow10(b.drop_last().len()));
        assert((digits_val(a) * pow10(b.drop_last().len()) + digits_val(b.drop_last())) * 10
            == digits_val(a) * (10 * pow10(b.drop_last().len())) + digits_val(b.drop_last()) * 10)
            by (nonlinear_arith)
        ;
    }
}

pub proof fn lemma_zero_chars(k: nat)
    ensures
        all_digits(zero_chars(k)),
        digits_val(zero_chars(k)) == 0,
        zero_chars(k).len() == k,
    decreases k,
{
    if k > 0 {
        lemma_zero_chars((k - 1) as nat);
        assert(zero_chars(k).drop_last() =~= zero_chars((k - 1) as nat));
        assert(zero_chars(k).last() == '0');
    }
}

/// A digit prefix never outgrows the whole: `digits_val(s) >= digits_val(s.take(k))`.
pub proof fn lemma_digits_val_prefix(s: Seq<char>, k: int)
    requires
        all_digits(s),
        0 <= k <= s.len(),
    ensures
        digits_val(s) >= digits_val(s.take(k)),
        digits_val(s.take(k)) >= 0,
{
    let a = s.take(k);
    let b = s.skip(k);
    assert(s =~= a + b);
    assert(all_digits(a));
    assert(all_digits(b)) by {
        assert(forall|i: int| 0 <= i < b.len() ==> b[i] == s[k + i]);
    }
    lemma_digits_val_concat(a, b);
    lemma_digits_val_nonneg(a);
    lemma_digits_val_nonneg(b);
    lemma_pow10_pos(b.len());
    assert(digits_val(a) * pow10(b.len()) >= digits_val(a)) by (nonlinear_arith)
        requires
            digits_val(a) >= 0,
            pow10(b.len()) >= 1,
    ;
}

fn to_digit_char(d: u8) -> (c: char)
    requires
        d < 10,
    ensures
        c == digit_char(d as int),
{
    match d {
        0 => '0',
        1 => '1',
        2 => '2',
        3 => '3',
        4 => '4',
        5 => '5',
        6 => '6',
        7 => '7',
        8 => '8',
        _ => '9',
    }
}

fn from_digit_char(c: char) -> (r: Option<u8>)
    ensures
        match r {
            Some(d) => d < 10 && char_digit(c) == d as int,
            None => !is_digit_char(c),
        },
{
    match c {
        '0' => Some(0),
        '1' => Some(1),
        '2' => Some(2),
        '3' => Some(3),
        '4' => Some(4),
        '5' => Some(5),
        '6' => Some(6),
        '7' => Some(7),
        '8' => Some(8),
        '9' => Some(9),
        _ => None,
    }
}

/// The decimal digits of `n`, most significant first.
pub fn digits_of_u128(n: u128) -> (v: Vec<char>)
    ensures
        v@ == dec_digits(n as int),
    decreases n,
{
    if n < 10 {
        let mut v: Vec<char> = Vec::new();
        v.push(to_digit_char(n as u8));
        proof {
            assert(v@ =~= dec_digits(n as int));
        }
        v
    } else {
        proof {
            lemma_fundamental_div_mod(n as int, 10);
            lemma_mod_bound(n as int, 10);
        }
        let mut v = digits_of_u128(n / 10);
        v.push(to_digit_char((n % 10) as u8));
        proof {
            assert(v@ =~= dec_digits(n as int));
        }
        v
    }
}

/// The decimal digit string of `n`, as `to_string` renders a `u64`.
pub fn u64_string(n: u64) -> (s: String)
    ensures
        s@ == dec_digits(n as int),
{
    let v = digits_of_u128(n as u128);
    string_of(&v)
}

// ---------------------------------------------------------------------------
// Rendering and parsing
// ---------------------------------------------------------------------------

/// The text of a decimal: sign, integer digits, and exactly `s` fraction
/// digits after a point when `s > 0`, zero-padded like `1.10` or `0.05`.
pub open spec fn dv_chars(d: DecV) -> Seq<char> {
    let mag = if d.m >= 0 {
        d.m
    } else {
        -d.m
    };
    let digs = dec_digits(mag);
    let pad = if digs.len() >= d.s + 1 {
        digs
    } else {
        zero_chars((d.s + 1 - digs.len()) as nat) + digs
    };
    let cut = pad.len() - d.s;
    let sign: Seq<char> = if d.m < 0 {
        seq!['-']
    } else {
        Seq::empty()
    };
    if d.s == 0 {
        sign + pad
    } else {
        sign + pad.take(cut as int) + seq!['.'] + pad.skip(cut as int)
    }
}

/// The position of the first `.` in `s` at or after `i`, or `-1`.
pub open spec fn find_dot_from(s: Seq<char>, i: int) -> int
    decreases s.len() - i when 0 <= i <= s.len()
{
    if i >= s.len() {
        -1
    } else if s[i] == '.' {
        i
    } else {
        find_dot_from(s, i + 1)
    }
}

/// What the decimal grammar accepts: an optional sign, one or more digits,
/// then optionally a point and one to `MAX_SCALE` fraction digits, the whole
/// value within the mantissa range.
pub open spec fn parse_dec_chars(s: Seq<char>) -> Option<DecV> {
    if s.len() == 0 {
        None
    } else {
        let neg = s[0] == '-';
        let r = if s[0] == '-' || s[0] == '+' {
            s.skip(1)
        } else {
            s
        };
        if r.len() == 0 {
            None
        } else {
            let dot = find_dot_from(r, 0);
            if dot == -1 {
                if all_digits(r) && digits_val(r) <= MAX_MANTISSA as int {
                    Some(
                        DecV {
                            m: if neg {
                                -digits_val(r)
                            } else {
                                digits_val(r)
                            },
                            s: 0,
                        },
                    )
                } else {
                    None
                }
            } else {
                let ip = r.take(dot);
                let fp = r.skip(dot + 1);
                if ip.len() > 0 && fp.len() > 0 && fp.len() <= MAX_SCALE as nat && all_digits(ip)
                    && all_digits(fp) && digits_val(ip + fp) <= MAX_MANTISSA as int {
                    Some(
                        DecV {
                            m: if neg {
                                -digits_val(ip + fp)
                            } else {
                                digits_val(ip + fp)
                            },
                            s: fp.len(),
                        },
                    )
                } else {
                    None
                }
            }
        }
    }
}

proof fn lemma_find_dot(s: Seq<char>, i: int, j: int)
    requires
        0 <= i <= j <= s.len(),
        forall|k: int| i <= k < j ==> s[k] != '.',
        j == s.len() || s[j] == '.',
    ensures
        find_dot_from(s, i) == if j == s.len() {
            -1
        } else {
            j as int
        },
    decreases j - i,
{
    if i < j {
        lemma_find_dot(s, i + 1, j);
    }
}

/// The value of the digit run `v[a..b)`: `None` when a character is no digit
/// or the value leaves the mantissa range.
fn digits_value(v: &Vec<char>, a: usize, b: usize) -> (r: Option<i128>)
    requires
        a <= b <= v@.len(),
    ensures
        ({
            let s = v@.subrange(a as int, b as int);
            match r {
                Some(x) => all_digits(s) && x as int == digits_val(s) && 0 <= x
                    <= MAX_MANTISSA as int,
                None => !(all_digits(s) && digits_val(s) <= MAX_MANTISSA as int),
            }
        }),
{
    let ghost s = v@.subrange(a as int, b as int);
    let mut acc: i128 = 0;
    let mut j: usize = a;
    while j < b
        invariant
            a <= j <= b <= v@.len(),
            s == v@.subrange(a as int, b as int),
            all_digits(s.take(j - a)),
            acc as int == digits_val(s.take(j - a)),
            0 <= acc <= MAX_MANTISSA,
        decreases b - j,
    {
        let c = v[j];
        proof {
            assert(s[j - a] == c);
        }
        match from_digit_char(c) {
            None => {
                proof {
                    assert(!is_digit_char(s[j - a]));
                }
                return None;
            },
            Some(d) => {
                if acc >= DIGIT_CAP {
                    proof {
                        if all_digits(s) {
                            let t = s.take(j - a + 1);
                            assert(t.drop_last() =~= s.take(j - a));
                            assert(t.last() == c);
                            assert(digits_val(t) == acc as int * 10 + d as int);
                            lemma_digits_val_prefix(s, j - a + 1);
                            assert(digits_val(s) >= acc as int * 10);
                            assert(acc as int * 10 >= DIGIT_CAP as int * 10) by (nonlinear_arith)
                                requires
                                    acc as int >= DIGIT_CAP as int,
                            ;
                        }
                    }
                    return None;
                }
                proof {
                    let t = s.take(j - a + 1);
                    assert(t.drop_last() =~= s.take(j - a));
                    assert(t.last() == c);
                    assert(all_digits(t));
                }
                acc = acc * 10 + (d as i128);
                j += 1;
            },
        }
    }
    proof {
        assert(s.take(b - a) =~= s);
    }
    Some(acc)
}

impl DecimalValue {
    /// Parses the decimal grammar from a character vector.
    #[verifier::rlimit(80)]
    pub fn parse_chars(v: &Vec<char>) -> (r: Option<DecimalValue>)
        ensures
            match r {
                Some(d) => parse_dec_chars(v@) == Some(d@) && d.wf(),
                None => parse_dec_chars(v@) is None,
            },
    {
        let n = v.len();
        if n == 0 {
            return None;
        }
        let c0 = v[0];
        let neg = c0 == '-';
        let signed = neg || c0 == '+';
        let start: usize = if signed {
            1
        } else {
            0
        };
        let ghost r = if signed {
            v@.skip(1)
        } else {
            v@
        };
        proof {
            if !signed {
                assert(r =~= v@.subrange(start as int, n as int));
            } else {
                assert(r =~= v@.subrange(start as int, n as int));
            }
            assert(forall|k: int| 0 <= k < r.len() ==> r[k] == v@[start + k]);
        }
        if start == n {
            return None;
        }
        // locate the first point
        let mut dot: usize = n;
        let mut j: usize = start;
        while j < n && dot == n
            invariant
                start <= j <= n == v@.len(),
                forall|k: int| start <= k < j ==> v@[k] != '.',
                dot == n || (dot == j && j < n && v@[dot as int] == '.'),
            decreases n - j, (if dot == n { 1int } else { 0int }),
        {
            if v[j] == '.' {
                dot = j;
            } else {
                j += 1;
            }
        }
        if dot == n {
            proof {
                assert(forall|k: int| 0 <= k < r.len() ==> r[k] != '.') by {
                    assert(forall|k: int| 0 <= k < r.len() ==> r[k] == v@[start + k]);
                }
                lemma_find_dot(r, 0, r.len() as int);
                assert(find_dot_from(r, 0) == -1);
            }
            match digits_value(v, start, n) {
                None => {
                    proof {
                        assert(r =~= v@.subrange(start as int, n as int));
                    }
                    None
                },
                Some(x) => {
                    proof {
                        assert(r =~= v@.subrange(start as int, n as int));
                    }
                    let m = if neg {
                        -x
                    } else {
                        x
                    };
                    Some(DecimalValue { mantissa: m, scale: 0 })
                },
            }
        } else {
            proof {
                assert(forall|k: int| 0 <= k < dot - start ==> r[k] != '.') by {
                    assert(forall|k: int| 0 <= k < r.len() ==> r[k] == v@[start + k]);
                }
                assert(r[dot - start] == v@[dot as int]);
                lemma_find_dot(r, 0, dot - start);
                assert(find_dot_from(r, 0) == dot - start);
            }
            let ghost ip = r.take(dot - start);
            let ghost fp = r.skip(dot - start + 1);
            if dot == start {
                proof {
                    assert(ip.len() == 0);
                }
                return None;
            }
            if dot + 1 == n {
                proof {
                    assert(fp.len() == 0);
                }
                return None;
            }
            if n - (dot + 1) > 28 {
                proof {
                    assert(fp.len() > MAX_SCALE as nat);
                }
                return None;
            }
            proof {
                assert(ip =~= v@.subrange(start as int, dot as int));
                assert(fp =~= v@.subrange(dot + 1, n as int));
            }
            let xi = match digits_value(v, start, dot) {
                None => {
                    proof {
                        // either a non-digit in the whole part, or its value
                        // already tops the range, and a tail cannot shrink it
                        if all_digits(ip) && all_digits(fp) {
                            lemma_digits_val_concat(ip, fp);
                            lemma_digits_val_nonneg(ip);
                            lemma_digits_val_nonneg(fp);
                            lemma_pow10_pos(fp.len());
                            if digits_val(ip) > MAX_MANTISSA as int {
                                assert(digits_val(ip) * pow10(fp.len()) >= digits_val(ip))
                                    by (nonlinear_arith)
                                    requires
                                        digits_val(ip) >= 0,
                                        pow10(fp.len()) >= 1,
                                ;
                            }
                        }
                    }
                    return None;
                },
                Some(x) => x,
            };
            let xf = match digits_value(v, dot + 1, n) {
                None => {
                    proof {
                        if all_digits(fp) {
                            lemma_digits_val_concat(ip, fp);
                            lemma_digits_val_nonneg(fp);
                            lemma_digits_val_nonneg(ip);
                            lemma_pow10_pos(fp.len());
                            assert(digits_val(ip) * pow10(fp.len()) >= 0) by (nonlinear_arith)
                                requires
                                    digits_val(ip) >= 0,
                                    pow10(fp.len()) >= 1,
                            ;
                        }
                    }
                    return None;
                },
                Some(x) => x,
            };
            let flen: u32 = (n - (dot + 1)) as u32;
            let p = pow10_i128(flen);
            proof {
                lemma_digits_val_concat(ip, fp);
                lemma_digits_val_nonneg(ip);
                lemma_digits_val_nonneg(fp);
            }
            match scaled_product(xi, p) {
                None => {
                    proof {
                        assert(digits_val(ip + fp) > MAX_MANTISSA as int);
                    }
                    None
                },
                Some(hi) => {
                    if hi > MAX_MANTISSA - xf {
                        proof {
                            assert(digits_val(ip + fp) > MAX_MANTISSA as int);
                        }
                        None
                    } else {
                        let m = if neg {
                            -(hi + xf)
                        } else {
                            hi + xf
                        };
                        Some(DecimalValue { mantissa: m, scale: flen })
                    }
                },
            }
        }
    }

    /// Parses the decimal grammar from a string slice.
    pub fn from_text(s: &str) -> (r: Option<DecimalValue>)
        ensures
            match r {
                Some(d) => parse_dec_chars(s@) == Some(d@) && d.wf(),
                None => parse_dec_chars(s@) is None,
            },
    {
        let v = chars_of(s);
        DecimalValue::parse_chars(&v)
    }

    /// The characters of this decimal, per `dv_chars`.
    pub fn to_chars(&self) -> (out: Vec<char>)
        requires
            self.wf(),
        ensures
            out@ == dv_chars(self@),
    {
        let neg = self.mantissa < 0;
        let mag: u128 = if neg {
            (-self.mantissa) as u128
        } else {
            self.mantissa as u128
        };
        let mut digs = digits_of_u128(mag);
        let ghost base = dec_digits(mag as int);
        let s = self.scale as usize;
        proof {
            lemma_dec_digits(mag as int);
            assert(digs@ =~= zero_chars(0) + base);
        }
        while digs.len() < s + 1
            invariant
                digs@.len() >= base.len() >= 1,
                digs@ == zero_chars((digs@.len() - base.len()) as nat) + base,
                digs@.len() == base.len() || digs@.len() <= s + 1,
                s <= 28,
            decreases s + 1 - digs.len(),
        {
            proof {
                lemma_dec_digits(mag as int);
            }
            digs.insert(0, '0');
            proof {
                assert(digs@ =~= zero_chars((digs@.len() - base.len()) as nat) + base);
            }
        }
        proof {
            lemma_dec_digits(mag as int);
            if base.len() >= s + 1 {
                assert(digs@ =~= base);
            }
            assert(digs@ == if base.len() >= s + 1 {
                base
            } else {
                zero_chars((s + 1 - base.len()) as nat) + base
            });
        }
        let cut = digs.len() - s;
        let mut out: Vec<char> = Vec::new();
        if neg {
            out.push('-');
        }
        let mut i: usize = 0;
        while i < cut
            invariant
                cut <= digs@.len(),
                i <= cut,
                out@ == (if neg {
                    seq!['-']
                } else {
                    Seq::<char>::empty()
                }) + digs@.take(i as int),
            decreases cut - i,
        {
            out.push(digs[i]);
            proof {
                assert(out@ =~= (if neg {
                    seq!['-']
                } else {
                    Seq::<char>::empty()
                }) + digs@.take(i + 1));
            }
            i += 1;
        }
        if s > 0 {
            out.push('.');
            let mut i: usize = cut;
            while i < digs.len()
                invariant
                    cut <= i <= digs@.len(),
                    out@ == (if neg {
                        seq!['-']
                    } else {
                        Seq::<char>::empty()
                    }) + digs@.take(cut as int) + seq!['.'] + digs@.subrange(cut as int, i as int),
                decreases digs@.len() - i,
            {
                out.push(digs[i]);
                proof {
                    assert(out@ =~= (if neg {
                        seq!['-']
                    } else {
                        Seq::<char>::empty()
                    }) + digs@.take(cut as int) + seq!['.'] + digs@.subrange(cut as int, i + 1));
                }
                i += 1;
            }
            proof {
                assert(digs@.subrange(cut as int, digs@.len() as int) =~= digs@.skip(cut as int));
                assert(out@ =~= dv_chars(self@));
            }
        } else {
            proof {
                assert(digs@.take(cut as int) =~= digs@);
                assert(out@ =~= dv_chars(self@));
            }
        }
        out
    }

    /// The text of this decimal, as `to_string` would render it.
    pub fn to_text(&self) -> (out: String)
        requires
            self.wf(),
        ensures
            out@ == dv_chars(self@),
    {
        let v = self.to_chars();
        string_of(&v)
    }
}

/// Printing then parsing gives the decimal back: the grammar inverts the
/// renderer on every well-formed value.
#[verifier::rlimit(80)]
pub proof fn lemma_parse_of_chars(d: DecV)
    requires
        dv_wf(d),
    ensures
        parse_dec_chars(dv_chars(d)) == Some(d),
{
    let mag = if d.m >= 0 {
        d.m
    } else {
        -d.m
    };
    let digs = dec_digits(mag);
    lemma_dec_digits(mag);
    let pad = if digs.len() >= d.s + 1 {
        digs
    } else {
        zero_chars((d.s + 1 - digs.len()) as nat) + digs
    };
    lemma_zero_chars((d.s + 1 - digs.len()) as nat);
    assert(all_digits(pad)) by {
        if digs.len() < d.s + 1 {
            let z = zero_chars((d.s + 1 - digs.len()) as nat);
            assert(forall|i: int| 0 <= i < pad.len() ==> pad[i] == if i < z.len() {
                z[i]
            } else {
                digs[i - z.len()]
            });
        }
    }
    assert(digits_val(pad) == mag) by {
        if digs.len() < d.s + 1 {
            lemma_digits_val_concat(zero_chars((d.s + 1 - digs.len()) as nat), digs);
        }
    }
    assert(pad.len() >= d.s + 1);
    let cut = pad.len() - d.s;
    let sign: Seq<char> = if d.m < 0 {
        seq!['-']
    } else {
        Seq::empty()
    };
    let c = dv_chars(d);
    if d.s == 0 {
        assert(c == sign + pad);
        if d.m < 0 {
            assert(c[0] == '-');
            assert(c.skip(1) =~= pad);
            lemma_find_dot(pad, 0, pad.len() as int);
            assert(parse_dec_chars(c) == Some(DecV { m: -digits_val(pad), s: 0 }));
            assert(-digits_val(pad) == d.m);
        } else {
            assert(c =~= pad);
            assert(is_digit_char(c[0]));
            assert(c[0] != '-' && c[0] != '+');
            lemma_find_dot(pad, 0, pad.len() as int);
            assert(parse_dec_chars(c) == Some(DecV { m: digits_val(pad), s: 0 }));
        }
    } else {
        let body = pad.take(cut as int) + seq!['.'] + pad.skip(cut as int);
        assert(c == sign + body);
        let ip = pad.take(cut as int);
        let fp = pad.skip(cut as int);
        assert(all_digits(ip));
        assert(all_digits(fp)) by {
            assert(forall|i: int| 0 <= i < fp.len() ==> fp[i] == pad[cut + i]);
        }
        assert(body.len() == pad.len() + 1);
        assert(forall|k: int| 0 <= k < cut ==> body[k] == ip[k]);
        assert(body[cut as int] == '.');
        let r = if d.m < 0 {
            c.skip(1)
        } else {
            c
        };
        assert(r =~= body);
        assert(forall|k: int| 0 <= k < cut ==> r[k] != '.');
        lemma_find_dot(r, 0, cut as int);
        assert(find_dot_from(r, 0) == cut as int);
        assert(r.take(cut as int) =~= ip);
        assert(r.skip(cut as int + 1) =~= fp);
        assert(ip + fp =~= pad);
        assert(fp.len() == d.s);
        if d.m < 0 {
            assert(c[0] == '-');
            assert(parse_dec_chars(c) == Some(DecV { m: -digits_val(pad), s: fp.len() }));
        } else {
            assert(c =~= body);
            assert(is_digit_char(c[0]));
            assert(c[0] != '-' && c[0] != '+');
            assert(parse_dec_chars(c) == Some(DecV { m: digits_val(pad), s: fp.len() }));
        }
    }
}

} // verus!
