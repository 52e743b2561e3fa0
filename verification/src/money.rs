//! Exact fixed-point decimal arithmetic for currency amounts.
//!
//! An amount is stored as an integer count of hundredths of the currency
//! unit, so additions and multiplications by item quantities are exact:
//! there is no floating point anywhere and no rounding drift.

use vstd::prelude::*;

use crate::text::{all_digits, dec_digits, digit_char, digits_val};

verus! {

/// A currency amount, counted in hundredths of the main unit.
#[derive(Clone, Copy, Debug, PartialEq, Eq, Structural)]
pub struct Money {
    pub cents: i128,
}

impl Money {
    /// The mathematical value of this amount, in hundredths.
    pub open spec fn val(self) -> int {
        self.cents as int
    }

    /// An amount of zero.
    pub fn zero() -> (r: Money)
        ensures
            r.val() == 0,
    {
        Money { cents: 0 }
    }

    /// An amount given in whole currency units.
    pub fn from_units(units: i64) -> (r: Money)
        ensures
            r.val() == units * 100,
    {
        Money { cents: (units as i128) * 100 }
    }

    /// True if the amount is at least zero.
    pub fn is_nonnegative(&self) -> (r: bool)
        ensures
            r == (self.val() >= 0),
    {
        self.cents >= 0
    }

    /// True if the amount is strictly positive.
    pub fn is_positive(&self) -> (r: bool)
        ensures
            r == (self.val() > 0),
    {
        self.cents > 0
    }

    /// Exact sum; `None` when the result would not fit.
    pub fn checked_add(self, other: Money) -> (r: Option<Money>)
        ensures
            match r {
                Some(m) => m.val() == self.val() + other.val(),
                None => !(i128::MIN <= self.val() + other.val() <= i128::MAX),
            },
    {
        match self.cents.checked_add(other.cents) {
            Some(c) => Some(Money { cents: c }),
            None => None,
        }
    }

    /// Exact product with an integer quantity; `None` when the result
    /// would not fit.
    pub fn checked_mul_int(self, quantity: i32) -> (r: Option<Money>)
        ensures
            match r {
                Some(m) => m.val() == self.val() * quantity,
                None => !(i128::MIN <= self.val() * quantity <= i128::MAX),
            },
    {
        match self.cents.checked_mul(quantity as i128) {
            Some(c) => Some(Money { cents: c }),
            None => None,
        }
    }
}


/// The canonical text of an amount: an optional minus sign, the whole
/// units, and up to two fraction digits with trailing zeros dropped.
pub open spec fn money_text(v: int) -> Seq<char> {
    let a = if v < 0 {
        -v
    } else {
        v
    };
    let u = a / 100;
    let f = a % 100;
    let sign: Seq<char> = if v < 0 {
        seq!['-']
    } else {
        Seq::empty()
    };
    let frac: Seq<char> = if f == 0 {
        Seq::empty()
    } else if f % 10 == 0 {
        seq!['.', digit_char((f / 10) as nat)]
    } else {
        seq!['.', digit_char((f / 10) as nat), digit_char((f % 10) as nat)]
    };
    sign + dec_digits(u as nat) + frac
}

/// The amount a text denotes: an optional minus sign, up to thirty
/// digits of whole units, and an optional dot with one or two fraction
/// digits.  Anything else denotes nothing.
pub open spec fn money_val_of(s: Seq<char>) -> Option<int> {
    let body = if s.len() > 0 && s[0] == '-' {
        s.drop_first()
    } else {
        s
    };
    let neg = s.len() > 0 && s[0] == '-';
    match split_money_body(body) {
        Some(v) => if neg {
            Some(-v)
        } else {
            Some(v)
        },
        None => None,
    }
}

/// The non-negative amount an unsigned body denotes, in hundredths.
pub open spec fn split_money_body(body: Seq<char>) -> Option<int> {
    if body.contains('.') {
        let d = body.index_of_first('.')->Some_0;
        let units = body.subrange(0, d);
        let frac = body.subrange(d + 1, body.len() as int);
        if 1 <= units.len() <= 30 && all_digits(units) && all_digits(frac) && 1 <= frac.len() <= 2
            && !frac.contains('.') {
            Some(
                digits_val(units) * 100 + if frac.len() == 1 {
                    digits_val(frac) * 10
                } else {
                    digits_val(frac)
                },
            )
        } else {
            None
        }
    } else if 1 <= body.len() <= 30 && all_digits(body) {
        Some(digits_val(body) * 100)
    } else {
        None
    }
}

impl Money {
    /// Renders the amount canonically, as [`money_text`].
    pub fn to_text(&self) -> (r: String)
        requires
            self.val() > i128::MIN,
        ensures
            r@ == money_text(self.val()),
    {
        let neg = self.cents < 0;
        let a: i128 = if neg {
            -self.cents
        } else {
            self.cents
        };
        let u = (a / 100) as u128;
        let f = (a % 100) as u64;
        let units = u128_to_dec(u);
        proof {
            reveal_strlit("-");
            reveal_strlit(".");
            assert("-"@ =~= seq!['-']);
            assert("."@ =~= seq!['.']);
        }
        let frac: String = if f == 0 {
            "".to_owned()
        } else if f % 10 == 0 {
            ".".to_owned().concat(digit_string(f / 10).as_str())
        } else {
            ".".to_owned().concat(digit_string(f / 10).as_str()).concat(
                digit_string(f % 10).as_str(),
            )
        };
        let r = if neg {
            "-".to_owned().concat(units.as_str()).concat(frac.as_str())
        } else {
            units.concat(frac.as_str())
        };
        proof {
            reveal_strlit("");
            assert(""@ =~= Seq::<char>::empty());
            assert(r@ =~= money_text(self.val()));
        }
        r
    }

    /// Reads an amount from text, per [`money_val_of`]; `None` exactly
    /// when the text is malformed or the whole part exceeds thirty
    /// digits.
    pub fn parse_text(s: &str) -> (r: Option<Money>)
        ensures
            match r {
                Some(m) => money_val_of(s@) == Some(m.val()),
                None => money_val_of(s@) is None,
            },
    {
        let cs = crate::text::chars_of(s);
        let n = cs.len();
        let neg = n > 0 && cs[0] == '-';
        let start: usize = if neg {
            1
        } else {
            0
        };
        let ghost body = if s@.len() > 0 && s@[0] == '-' {
            s@.drop_first()
        } else {
            s@
        };
        proof {
            assert(body =~= s@.subrange(start as int, n as int));
        }
        // find the dot, if any
        let mut dot: Option<usize> = None;
        let mut i: usize = start;
        while i < n
            invariant
                start <= i <= n,
                n == cs@.len(),
                cs@ == s@,
                body == s@.subrange(start as int, n as int),
                match dot {
                    Some(d) => start <= d < i && s@[d as int] == '.' && forall|j: int|
                        start <= j < d ==> s@[j] != '.',
                    None => forall|j: int| start <= j < i ==> s@[j] != '.',
                },
            decreases n - i,
        {
            if cs[i] == '.' && dot.is_none() {
                dot = Some(i);
            }
            i = i + 1;
        }
        match dot {
            None => {
                proof {
                    assert(!body.contains('.')) by {
                        if body.contains('.') {
                            let j = choose|j: int| 0 <= j < body.len() && body[j] == '.';
                            assert(s@[start + j] == '.');
                        }
                    }
                }
                if n - start < 1 || n - start > 30 {
                    return None;
                }
                let units: Vec<char> = copy_range(&cs, start, n);
                let v = match parse_digits_bounded(&units) {
                    Some(v) => v,
                    None => {
                        return None;
                    },
                };
                proof {
                    assert(units@ =~= body);
                }
                let cents = v * 100;
                Some(Money { cents: if neg { -cents } else { cents } })
            },
            Some(d) => {
                proof {
                    assert(body[d - start] == '.');
                    assert(body.contains('.'));
                    assert(body.index_of_first('.') == Some(d - start)) by {
                        body.index_of_first_ensures('.');
                        let f = body.index_of_first('.')->Some_0;
                        if f < d - start {
                            assert(s@[start + f] == '.');
                        }
                    }
                }
                let ulen = d - start;
                let flen = n - d - 1;
                if ulen < 1 || ulen > 30 || flen < 1 || flen > 2 {
                    return None;
                }
                let units: Vec<char> = copy_range(&cs, start, d);
                let frac: Vec<char> = copy_range(&cs, d + 1, n);
                proof {
                    assert(units@ =~= body.subrange(0, d - start));
                    assert(frac@ =~= body.subrange(d - start + 1, body.len() as int));
                }
                let uv = match parse_digits_bounded(&units) {
                    Some(v) => v,
                    None => {
                        return None;
                    },
                };
                let fv = match parse_digits_bounded(&frac) {
                    Some(v) => v,
                    None => {
                        return None;
                    },
                };
                proof {
                    assert(!frac@.contains('.')) by {
                        if frac@.contains('.') {
                            let j = choose|j: int| 0 <= j < frac@.len() && frac@[j] == '.';
                            assert(s@[d + 1 + j] == '.');
                        }
                    }
                    assert(fv < 100) by {
                        lemma_digits_bound(frac@);
                    }
                }
                let cents = uv * 100 + (if frac.len() == 1 {
                    fv * 10
                } else {
                    fv
                });
                Some(Money { cents: if neg { -cents } else { cents } })
            },
        }
    }
}

/// Copies a index range of characters.
fn copy_range(cs: &Vec<char>, a: usize, b: usize) -> (r: Vec<char>)
    requires
        a <= b <= cs@.len(),
    ensures
        r@ == cs@.subrange(a as int, b as int),
{
    let mut r: Vec<char> = Vec::new();
    let mut i: usize = a;
    while i < b
        invariant
            a <= i <= b <= cs@.len(),
            r@ == cs@.subrange(a as int, i as int),
        decreases b - i,
    {
        r.push(cs[i]);
        proof {
            assert(r@ =~= cs@.subrange(a as int, i + 1));
        }
        i = i + 1;
    }
    proof {
        assert(r@ =~= cs@.subrange(a as int, b as int));
    }
    r
}

/// Parses one to thirty digits into a non-negative value; `None` when a
/// character is not a digit.
fn parse_digits_bounded(cs: &Vec<char>) -> (r: Option<i128>)
    requires
        1 <= cs@.len() <= 30,
    ensures
        match r {
            Some(v) => all_digits(cs@) && v == digits_val(cs@) && 0 <= v
                < 1000000000000000000000000000000,
            None => !all_digits(cs@),
        },
{
    let mut acc: i128 = 0;
    let mut i: usize = 0;
    proof {
        lemma_pow10_value();
        lemma_pow10_mono(0, 30);
    }
    while i < cs.len()
        invariant
            i <= cs@.len(),
            cs@.len() <= 30,
            forall|j: int| 0 <= j < i ==> crate::dates::is_digit(#[trigger] cs@[j]),
            acc == digits_val(cs@.subrange(0, i as int)),
            0 <= acc,
            acc < pow10(i as nat),
            pow10(30) == 1000000000000000000000000000000,
        decreases cs@.len() - i,
    {
        let u = cs[i] as u32;
        if !(48 <= u && u <= 57) {
            assert(!crate::dates::is_digit(cs@[i as int]));
            return None;
        }
        proof {
            assert(cs@.subrange(0, i + 1).drop_last() =~= cs@.subrange(0, i as int));
            lemma_pow10_mono(i as nat + 1, 30);
            assert(acc * 10 + 9 < pow10(i as nat + 1)) by (nonlinear_arith)
                requires
                    acc < pow10(i as nat),
                    pow10(i as nat + 1) == pow10(i as nat) * 10,
                    acc >= 0,
            ;
        }
        acc = acc * 10 + ((u - 48) as i128);
        i = i + 1;
    }
    proof {
        assert(cs@.subrange(0, cs@.len() as int) =~= cs@);
        lemma_pow10_mono(cs@.len() as nat, 30);
    }
    Some(acc)
}

/// Ten to the `k`.
pub open spec fn pow10(k: nat) -> int
    decreases k,
{
    if k == 0 {
        1
    } else {
        pow10((k - 1) as nat) * 10
    }
}

proof fn lemma_pow10_value()
    ensures
        pow10(30) == 1000000000000000000000000000000,
{
    reveal_with_fuel(pow10, 32);
}

proof fn lemma_pow10_mono(a: nat, b: nat)
    requires
        a <= b,
    ensures
        pow10(a) <= pow10(b),
        pow10(a) >= 1,
    decreases b,
{
    if a == b {
        lemma_pow10_pos(a);
    } else {
        lemma_pow10_mono(a, (b - 1) as nat);
        lemma_pow10_pos((b - 1) as nat);
    }
}

proof fn lemma_pow10_pos(k: nat)
    ensures
        pow10(k) >= 1,
    decreases k,
{
    if k > 0 {
        lemma_pow10_pos((k - 1) as nat);
    }
}

/// Up to two digits stay under one hundred.
proof fn lemma_digits_bound(s: Seq<char>)
    requires
        all_digits(s),
        s.len() <= 2,
    ensures
        0 <= digits_val(s),
        digits_val(s) < 100,
        s.len() <= 1 ==> digits_val(s) < 10,
    decreases s.len(),
{
    if s.len() > 0 {
        assert(all_digits(s.drop_last())) by {
            assert forall|k: int| 0 <= k < s.len() - 1 implies crate::dates::is_digit(
                #[trigger] s.drop_last()[k],
            ) by {
                assert(s.drop_last()[k] == s[k]);
            }
        }
        lemma_digits_bound(s.drop_last());
        assert(0 <= digits_val(s) && digits_val(s) < (if s.len() <= 1 { 10int } else { 100int }))
            by (nonlinear_arith)
            requires
                s.len() >= 1,
                digits_val(s) == digits_val(s.drop_last()) * 10 + ((s.last() as u32) - 48),
                0 <= digits_val(s.drop_last()) < (if s.len() <= 1 { 1int } else { 10int }),
                48 <= (s.last() as u32) <= 57,
        ;
    }
}

/// Renders one digit.
fn digit_string(d: u64) -> (r: String)
    requires
        d < 10,
    ensures
        r@ == seq![digit_char(d as nat)],
{
    crate::text::u64_to_dec(d)
}

/// Renders a `u128` in decimal.
fn u128_to_dec(n: u128) -> (r: String)
    ensures
        r@ == dec_digits(n as nat),
    decreases n,
{
    if n < 10 {
        crate::text::u64_to_dec(n as u64)
    } else {
        let high = u128_to_dec(n / 10);
        high.concat(crate::text::u64_to_dec((n % 10) as u64).as_str())
    }
}

} // verus!
