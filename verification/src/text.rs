//! Text primitives shared by the query engine and the stores: character
//! vectors, ASCII case folding, case-insensitive substring search,
//! lexicographic comparison, and decimal rendering of integers.

use vstd::prelude::*;

verus! {

/// The characters of `s`, one per element.
pub fn chars_of(s: &str) -> (r: Vec<char>)
    ensures
        r@ == s@,
{
    let n = s.unicode_len();
    let mut r: Vec<char> = Vec::new();
    let mut i: usize = 0;
    while i < n
        invariant
            n == s@.len(),
            i <= n,
            r@ == s@.subrange(0, i as int),
        decreases n - i,
    {
        r.push(s.get_char(i));
        proof {
            assert(r@ =~= s@.subrange(0, i + 1 as int));
        }
        i = i + 1;
    }
    proof {
        assert(r@ =~= s@);
    }
    r
}

/// Character-wise string equality.
pub fn str_eq(a: &str, b: &str) -> (r: bool)
    ensures
        r == (a@ == b@),
{
    let na = a.unicode_len();
    let nb = b.unicode_len();
    if na != nb {
        assert(a@ != b@);
        return false;
    }
    let mut i: usize = 0;
    while i < na
        invariant
            na == a@.len(),
            a@.len() == b@.len(),
            i <= na,
            forall|j: int| 0 <= j < i ==> a@[j] == b@[j],
        decreases na - i,
    {
        if a.get_char(i) != b.get_char(i) {
            assert(a@[i as int] != b@[i as int]);
            return false;
        }
        i = i + 1;
    }
    proof {
        assert(a@ =~= b@);
    }
    true
}

/// True when some character of `cs` is not whitespace.
pub fn any_non_space(cs: &Vec<char>) -> (r: bool)
    ensures
        r == exists|t: int|
            0 <= t < cs@.len() && !crate::trusted::space_of(#[trigger] cs@[t]),
{
    let mut k: usize = 0;
    while k < cs.len()
        invariant
            k <= cs@.len(),
            forall|t: int| 0 <= t < k ==> crate::trusted::space_of(#[trigger] cs@[t]),
        decreases cs@.len() - k,
    {
        if !crate::trusted::char_is_whitespace(cs[k]) {
            return true;
        }
        k = k + 1;
    }
    false
}

/// An ASCII letter or digit.
pub open spec fn ascii_alnum(c: char) -> bool {
    (48 <= c as u32 && c as u32 <= 57) || (65 <= c as u32 && c as u32 <= 90) || (97 <= c as u32
        && c as u32 <= 122)
}

/// ASCII case folding: upper-case ASCII letters map to lower case,
/// every other character is unchanged.
pub open spec fn fold_char(c: char) -> char {
    if 65 <= c as u32 && c as u32 <= 90 {
        ((c as u32) + 32) as char
    } else {
        c
    }
}

pub open spec fn fold_chars(s: Seq<char>) -> Seq<char> {
    s.map_values(|c: char| fold_char(c))
}

/// Executable ASCII case folding of one character.
pub fn fold_char_exec(c: char) -> (r: char)
    ensures
        r == fold_char(c),
{
    let u = c as u32;
    if 65 <= u && u <= 90 {
        ((u as u8) + 32) as char
    } else {
        c
    }
}

/// `needle` occurs in `hay` starting at `off`.
pub open spec fn matches_at(hay: Seq<char>, needle: Seq<char>, off: int) -> bool {
    &&& 0 <= off
    &&& off + needle.len() <= hay.len()
    &&& forall|k: int| 0 <= k < needle.len() ==> hay[off + k] == needle[k]
}

/// `needle` occurs somewhere in `hay`.
pub open spec fn contains_seq(hay: Seq<char>, needle: Seq<char>) -> bool {
    exists|off: int| matches_at(hay, needle, off)
}

/// Case-insensitive containment: the folded needle occurs in the folded hay.
pub open spec fn contains_fold(hay: Seq<char>, needle: Seq<char>) -> bool {
    contains_seq(fold_chars(hay), fold_chars(needle))
}

fn matches_at_exec(hay: &Vec<char>, needle: &Vec<char>, off: usize) -> (r: bool)
    requires
        off + needle@.len() <= hay@.len(),
    ensures
        r == matches_at(fold_chars(hay@), fold_chars(needle@), off as int),
{
    let hlen = hay.len();
    let mut k: usize = 0;
    while k < needle.len()
        invariant
            hlen == hay@.len(),
            off + needle@.len() <= hay@.len(),
            k <= needle@.len(),
            forall|j: int|
                0 <= j < k ==> fold_chars(hay@)[off + j] == fold_chars(needle@)[j],
        decreases needle@.len() - k,
    {
        assert(off + k < hay@.len());
        if fold_char_exec(hay[off + k]) != fold_char_exec(needle[k]) {
            assert(fold_chars(hay@)[off + k] != fold_chars(needle@)[k as int]);
            return false;
        }
        k = k + 1;
    }
    true
}

/// Case-insensitive substring search.
pub fn contains_ci(hay: &Vec<char>, needle: &Vec<char>) -> (r: bool)
    ensures
        r == contains_fold(hay@, needle@),
{
    if needle.len() > hay.len() {
        assert(!contains_fold(hay@, needle@));
        return false;
    }
    let last = hay.len() - needle.len();
    let mut off: usize = 0;
    loop
        invariant
            needle@.len() <= hay@.len(),
            last == hay@.len() - needle@.len(),
            off <= last,
            forall|o: int| 0 <= o < off ==> !matches_at(fold_chars(hay@), fold_chars(needle@), o),
        decreases last - off,
    {
        if matches_at_exec(hay, needle, off) {
            return true;
        }
        if off == last {
            assert forall|o: int| !matches_at(fold_chars(hay@), fold_chars(needle@), o) by {
                if 0 <= o <= last {
                    assert(!matches_at(fold_chars(hay@), fold_chars(needle@), o));
                }
            }
            return false;
        }
        off = off + 1;
    }
}

/// Both sequences fold to the same characters.
pub open spec fn eq_fold(a: Seq<char>, b: Seq<char>) -> bool {
    fold_chars(a) == fold_chars(b)
}

/// Case-insensitive equality of two character sequences.
pub fn eq_ignore_case(a: &Vec<char>, b: &Vec<char>) -> (r: bool)
    ensures
        r == eq_fold(a@, b@),
{
    if a.len() != b.len() {
        assert(fold_chars(a@).len() != fold_chars(b@).len());
        return false;
    }
    let mut k: usize = 0;
    while k < a.len()
        invariant
            a@.len() == b@.len(),
            k <= a@.len(),
            forall|j: int| 0 <= j < k ==> fold_chars(a@)[j] == fold_chars(b@)[j],
        decreases a@.len() - k,
    {
        if fold_char_exec(a[k]) != fold_char_exec(b[k]) {
            assert(fold_chars(a@)[k as int] != fold_chars(b@)[k as int]);
            return false;
        }
        k = k + 1;
    }
    proof {
        assert(fold_chars(a@) =~= fold_chars(b@));
    }
    true
}

/// Strict lexicographic order on character sequences, by scalar value.
pub open spec fn lex_lt(a: Seq<char>, b: Seq<char>) -> bool
    decreases a.len(),
{
    if b.len() == 0 {
        false
    } else if a.len() == 0 {
        true
    } else if a[0] != b[0] {
        (a[0] as u32) < (b[0] as u32)
    } else {
        lex_lt(a.drop_first(), b.drop_first())
    }
}

pub proof fn lemma_lex_lt_asymmetric(a: Seq<char>, b: Seq<char>)
    ensures
        !(lex_lt(a, b) && lex_lt(b, a)),
    decreases a.len(),
{
    if a.len() > 0 && b.len() > 0 && a[0] == b[0] {
        lemma_lex_lt_asymmetric(a.drop_first(), b.drop_first());
    }
}

pub proof fn lemma_lex_lt_connected(a: Seq<char>, b: Seq<char>)
    requires
        !lex_lt(a, b),
        !lex_lt(b, a),
    ensures
        a == b,
    decreases a.len(),
{
    if a.len() == 0 && b.len() == 0 {
        assert(a =~= b);
    } else {
        // neither is empty: an empty side would make one direction hold
        assert(a.len() > 0 && b.len() > 0);
        assert(a[0] == b[0]) by {
            if a[0] != b[0] {
                vstd::utf8::char_u32_cast(a[0], a[0] as u32);
                vstd::utf8::char_u32_cast(b[0], b[0] as u32);
                assert((a[0] as u32) != (b[0] as u32));
            }
        }
        lemma_lex_lt_connected(a.drop_first(), b.drop_first());
        assert(a =~= seq![a[0]] + a.drop_first());
        assert(b =~= seq![b[0]] + b.drop_first());
    }
}

pub proof fn lemma_lex_lt_transitive(a: Seq<char>, b: Seq<char>, c: Seq<char>)
    requires
        lex_lt(a, b),
        lex_lt(b, c),
    ensures
        lex_lt(a, c),
    decreases a.len(),
{
    if a.len() == 0 {
        // c.len() > 0 because lex_lt(b, c)
    } else {
        // b and c are nonempty
        if a[0] == b[0] {
            if b[0] == c[0] {
                lemma_lex_lt_transitive(a.drop_first(), b.drop_first(), c.drop_first());
            }
        }
    }
}

/// Non-strict lexicographic order.
pub open spec fn lex_le(a: Seq<char>, b: Seq<char>) -> bool {
    !lex_lt(b, a)
}

/// Executable lexicographic comparison of two character vectors.
pub fn lex_lt_exec(a: &Vec<char>, b: &Vec<char>) -> (r: bool)
    ensures
        r == lex_lt(a@, b@),
{
    let mut i: usize = 0;
    proof {
        assert(a@.skip(0) =~= a@);
        assert(b@.skip(0) =~= b@);
    }
    loop
        invariant
            i <= a@.len(),
            i <= b@.len(),
            forall|j: int| 0 <= j < i ==> a@[j] == b@[j],
            lex_lt(a@, b@) == lex_lt(a@.skip(i as int), b@.skip(i as int)),
        decreases a@.len() - i,
    {
        if i >= b.len() {
            assert(b@.skip(i as int).len() == 0);
            return false;
        }
        if i >= a.len() {
            assert(a@.skip(i as int).len() == 0 && b@.skip(i as int).len() > 0);
            return true;
        }
        let ca = a[i];
        let cb = b[i];
        assert(a@.skip(i as int)[0] == a@[i as int] && b@.skip(i as int)[0] == b@[i as int]);
        if ca != cb {
            return (ca as u32) < (cb as u32);
        }
        proof {
            assert(a@.skip(i as int).drop_first() =~= a@.skip(i + 1));
            assert(b@.skip(i as int).drop_first() =~= b@.skip(i + 1));
        }
        i = i + 1;
    }
}

/// The decimal digits of `n`, most significant first.
pub open spec fn dec_digits(n: nat) -> Seq<char>
    decreases n,
{
    let last = seq![digit_char((n % 10) as nat)];
    if n < 10 {
        last
    } else {
        dec_digits((n / 10) as nat) + last
    }
}

/// The character for one decimal digit.
pub open spec fn digit_char(d: nat) -> char {
    (48 + d) as char
}

fn digit_str(d: u8) -> (r: &'static str)
    requires
        d < 10,
    ensures
        r@ == seq![digit_char(d as nat)],
{
    proof {
        reveal_strlit("0");
        reveal_strlit("1");
        reveal_strlit("2");
        reveal_strlit("3");
        reveal_strlit("4");
        reveal_strlit("5");
        reveal_strlit("6");
        reveal_strlit("7");
        reveal_strlit("8");
        reveal_strlit("9");
    }
    match d {
        0 => "0",
        1 => "1",
        2 => "2",
        3 => "3",
        4 => "4",
        5 => "5",
        6 => "6",
        7 => "7",
        8 => "8",
        _ => {
            assert(d == 9);
            "9"
        },
    }
}

/// Renders `n` in decimal.
pub fn u64_to_dec(n: u64) -> (r: String)
    ensures
        r@ == dec_digits(n as nat),
    decreases n,
{
    if n < 10 {
        digit_str(n as u8).to_owned()
    } else {
        let high = u64_to_dec(n / 10);
        high.concat(digit_str((n % 10) as u8))
    }
}

/// Renders `n` in decimal, left-padded with zeros to at least `width`
/// characters.
pub open spec fn dec_padded(n: nat, width: nat) -> Seq<char>
    decreases width,
{
    let plain = dec_digits(n);
    if plain.len() >= width {
        plain
    } else {
        zeros((width - plain.len()) as nat) + plain
    }
}

pub open spec fn zeros(k: nat) -> Seq<char>
    decreases k,
{
    if k == 0 {
        Seq::empty()
    } else {
        seq![digit_char(0)] + zeros((k - 1) as nat)
    }
}

pub proof fn lemma_dec_digits_len(n: nat)
    ensures
        dec_digits(n).len() >= 1,
        n < 10 ==> dec_digits(n).len() == 1,
        n >= 10 ==> dec_digits(n).len() >= 2,
        n < 100 ==> dec_digits(n).len() <= 2,
        n >= 100 ==> dec_digits(n).len() >= 3,
        n < 1000 ==> dec_digits(n).len() <= 3,
        n >= 1000 ==> dec_digits(n).len() >= 4,
        n < 10000 ==> dec_digits(n).len() <= 4,
    decreases n,
{
    if n >= 10 {
        lemma_dec_digits_len((n / 10) as nat);
    }
}

/// Renders `n < 100` as exactly two decimal digits.
pub fn two_digits(n: u64) -> (r: String)
    requires
        n < 100,
    ensures
        r@ == dec_padded(n as nat, 2),
        r@.len() == 2,
{
    proof {
        lemma_dec_digits_len(n as nat);
    }
    if n < 10 {
        let s = digit_str(0).to_owned();
        let d = digit_str(n as u8);
        proof {
            assert(zeros(0) =~= Seq::<char>::empty());
            assert(zeros(1) =~= seq![digit_char(0)]);
        }
        let r = s.concat(d);
        proof {
            assert(r@ =~= dec_padded(n as nat, 2));
        }
        r
    } else {
        u64_to_dec(n)
    }
}

/// `n` written as its hundreds part followed by its two last digits.
proof fn lemma_dec_split(n: nat)
    requires
        100 <= n < 10000,
    ensures
        dec_digits(n) == dec_digits((n / 100) as nat) + dec_padded((n % 100) as nat, 2),
{
    let m = (n % 100) as nat;
    lemma_dec_digits_len(m);
    assert(n / 10 / 10 == n / 100 && (n / 10) % 10 == (n % 100) / 10 && n % 10 == (n % 100) % 10)
        by (nonlinear_arith)
        requires 100 <= n < 10000;
    assert(dec_digits(n) == dec_digits((n / 10) as nat) + seq![digit_char((n % 10) as nat)]);
    assert(dec_digits((n / 10) as nat) == dec_digits((n / 100) as nat) + seq![
        digit_char((m / 10) as nat),
    ]);
    if m < 10 {
        // m / 10 == 0, so the middle digit is the padding zero
        assert(dec_digits(m) =~= seq![digit_char((m % 10) as nat)]);
        assert(zeros(0) =~= Seq::<char>::empty());
        assert(zeros(1) =~= seq![digit_char(0)]);
        assert(dec_padded(m, 2) =~= seq![digit_char((m / 10) as nat)] + seq![
            digit_char((m % 10) as nat),
        ]);
    } else {
        assert(dec_digits(m) == dec_digits((m / 10) as nat) + seq![digit_char((m % 10) as nat)]);
        assert(m / 10 < 10 && (m / 10) % 10 == m / 10);
        assert(dec_digits((m / 10) as nat) =~= seq![digit_char((m / 10) as nat)]);
        assert(dec_digits(m) =~= seq![digit_char((m / 10) as nat)] + seq![
            digit_char((m % 10) as nat),
        ]);
    }
    assert(dec_digits(n) =~= dec_digits((n / 100) as nat) + dec_padded(m, 2));
}

/// Renders `n` as exactly four decimal digits (for years).
pub fn four_digits(n: u64) -> (r: String)
    requires
        n < 10000,
    ensures
        r@ == dec_padded(n as nat, 4),
        r@.len() == 4,
{
    proof {
        lemma_dec_digits_len(n as nat);
    }
    let hi = two_digits(n / 100);
    let lo = two_digits(n % 100);
    let r = hi.concat(lo.as_str());
    proof {
        lemma_dec_digits_len((n / 100) as nat);
        if n >= 100 {
            lemma_dec_split(n as nat);
            if n >= 1000 {
                assert(r@ =~= dec_padded(n as nat, 4));
            } else {
                // hi carries one padding zero in front of the three digits
                assert(zeros(1) =~= seq![digit_char(0)]);
                assert(r@ =~= zeros(1) + dec_digits(n as nat));
                assert(r@ =~= dec_padded(n as nat, 4));
            }
        } else {
            // hi is "00"; n / 100 == 0
            assert(zeros(1) =~= seq![digit_char(0)]);
            assert(zeros(2) =~= zeros(1) + seq![digit_char(0)]);
            assert(dec_digits(0nat) =~= seq![digit_char(0)]);
            assert(hi@ =~= zeros(2));
            if n < 10 {
                assert(zeros(3) =~= zeros(2) + zeros(1)) by {
                    assert(zeros(3) =~= seq![digit_char(0)] + zeros(2));
                    assert(zeros(2) =~= seq![digit_char(0)] + zeros(1));
                }
                assert(r@ =~= zeros(3) + dec_digits(n as nat));
                assert(r@ =~= dec_padded(n as nat, 4));
            } else {
                assert(r@ =~= zeros(2) + dec_digits(n as nat));
                assert(r@ =~= dec_padded(n as nat, 4));
            }
        }
    }
    r
}


/// The sequence without leading whitespace.
pub open spec fn trim_start_of(s: Seq<char>) -> Seq<char>
    decreases s.len(),
{
    if s.len() == 0 {
        s
    } else if crate::trusted::space_of(s[0]) {
        trim_start_of(s.drop_first())
    } else {
        s
    }
}

/// The sequence without trailing whitespace.
pub open spec fn trim_end_of(s: Seq<char>) -> Seq<char>
    decreases s.len(),
{
    if s.len() == 0 {
        s
    } else if crate::trusted::space_of(s.last()) {
        trim_end_of(s.drop_last())
    } else {
        s
    }
}

/// The sequence without leading and trailing whitespace.
pub open spec fn trim_of(s: Seq<char>) -> Seq<char> {
    trim_end_of(trim_start_of(s))
}

/// Skipping leading whitespace computes `trim_start_of`.
proof fn lemma_trim_start(s: Seq<char>, a: int)
    requires
        0 <= a <= s.len(),
        forall|j: int| 0 <= j < a ==> crate::trusted::space_of(#[trigger] s[j]),
        a < s.len() ==> !crate::trusted::space_of(s[a]),
    ensures
        trim_start_of(s) == s.skip(a),
    decreases a,
{
    if a == 0 {
        assert(s.skip(0) =~= s);
        if s.len() > 0 {
        }
    } else {
        assert(crate::trusted::space_of(s[0]));
        assert(s.drop_first() =~= s.skip(1));
        lemma_trim_start(s.skip(1), a - 1);
        assert(s.skip(1).skip(a - 1) =~= s.skip(a));
    }
}

/// Dropping trailing whitespace computes `trim_end_of`.
proof fn lemma_trim_end(s: Seq<char>, b: int)
    requires
        0 <= b <= s.len(),
        forall|j: int| b <= j < s.len() ==> crate::trusted::space_of(#[trigger] s[j]),
        b > 0 ==> !crate::trusted::space_of(s[b - 1]),
    ensures
        trim_end_of(s) == s.subrange(0, b),
    decreases s.len(),
{
    if b == s.len() {
        if b == 0 {
            assert(s.subrange(0, 0) =~= s);
        } else {
            assert(s.subrange(0, b) =~= s);
        }
    } else {
        assert(crate::trusted::space_of(s.last()));
        assert(s.drop_last() =~= s.subrange(0, s.len() - 1));
        lemma_trim_end(s.subrange(0, s.len() - 1), b);
        assert(s.subrange(0, s.len() - 1).subrange(0, b) =~= s.subrange(0, b));
    }
}

/// The first position holding a non-whitespace character, or the length.
fn first_non_space(s: &Vec<char>) -> (a: usize)
    ensures
        a <= s@.len(),
        forall|j: int| 0 <= j < a ==> crate::trusted::space_of(#[trigger] s@[j]),
        a < s@.len() ==> !crate::trusted::space_of(s@[a as int]),
{
    let n = s.len();
    let mut a: usize = 0;
    while a < n
        invariant
            n == s@.len(),
            a <= n,
            forall|j: int| 0 <= j < a ==> crate::trusted::space_of(#[trigger] s@[j]),
        decreases n - a,
    {
        if !crate::trusted::char_is_whitespace(s[a]) {
            return a;
        }
        a = a + 1;
    }
    a
}

/// One past the last non-whitespace position at or after `from`.
fn last_non_space(s: &Vec<char>, from: usize) -> (b: usize)
    requires
        from <= s@.len(),
    ensures
        from <= b <= s@.len(),
        forall|j: int| b <= j < s@.len() ==> crate::trusted::space_of(#[trigger] s@[j]),
        b > from ==> !crate::trusted::space_of(s@[b - 1]),
{
    let n = s.len();
    let mut b: usize = n;
    while b > from
        invariant
            n == s@.len(),
            from <= b <= n,
            forall|j: int| b <= j < n ==> crate::trusted::space_of(#[trigger] s@[j]),
        decreases b,
    {
        if !crate::trusted::char_is_whitespace(s[b - 1]) {
            return b;
        }
        b = b - 1;
    }
    b
}

/// Removes leading and trailing whitespace.
pub fn trim_chars(s: &Vec<char>) -> (r: Vec<char>)
    ensures
        r@ == trim_of(s@),
{
    let a = first_non_space(s);
    let b = last_non_space(s, a);
    proof {
        lemma_trim_start(s@, a as int);
        let st = s@.skip(a as int);
        assert forall|j: int| b - a <= j < st.len() implies crate::trusted::space_of(
            #[trigger] st[j],
        ) by {
            assert(st[j] == s@[a + j]);
        }
        if b > a {
            assert(st[b - a - 1] == s@[b - 1]);
        }
        lemma_trim_end(st, b - a);
        assert(st.subrange(0, b - a) =~= s@.subrange(a as int, b as int));
    }
    let mut r: Vec<char> = Vec::new();
    let mut i: usize = a;
    while i < b
        invariant
            a <= i <= b <= s@.len(),
            r@ == s@.subrange(a as int, i as int),
        decreases b - i,
    {
        r.push(s[i]);
        proof {
            assert(r@ =~= s@.subrange(a as int, i + 1));
        }
        i = i + 1;
    }
    proof {
        assert(r@ =~= s@.subrange(a as int, b as int));
    }
    r
}

/// Every character is a decimal digit.
pub open spec fn all_digits(t: Seq<char>) -> bool {
    forall|k: int| 0 <= k < t.len() ==> crate::dates::is_digit(#[trigger] t[k])
}

/// The decimal value of the digits, or nothing when the text is not
/// one or more digits (an optional leading plus sign is accepted).
pub open spec fn dec_val_of(s: Seq<char>) -> Option<int> {
    let t = if s.len() > 0 && s[0] == '+' {
        s.drop_first()
    } else {
        s
    };
    if t.len() > 0 && all_digits(t) {
        Some(digits_val(t))
    } else {
        None
    }
}

/// The value of a digit sequence, most significant first.
pub open spec fn digits_val(s: Seq<char>) -> int
    decreases s.len(),
{
    if s.len() == 0 {
        0
    } else {
        digits_val(s.drop_last()) * 10 + ((s.last() as u32) - 48)
    }
}

/// Digit sequences have non-negative values.
pub proof fn lemma_digits_val_nonneg(s: Seq<char>)
    requires
        all_digits(s),
    ensures
        digits_val(s) >= 0,
    decreases s.len(),
{
    if s.len() > 0 {
        assert(all_digits(s.drop_last())) by {
            assert forall|k: int| 0 <= k < s.len() - 1 implies crate::dates::is_digit(
                #[trigger] s.drop_last()[k],
            ) by {
                assert(s.drop_last()[k] == s[k]);
            }
        }
        lemma_digits_val_nonneg(s.drop_last());
        assert(digits_val(s) >= 0) by (nonlinear_arith)
            requires
                digits_val(s) == digits_val(s.drop_last()) * 10 + ((s.last() as u32) - 48),
                digits_val(s.drop_last()) >= 0,
                48 <= s.last() as u32,
        ;
    }
}

/// A digit prefix's value never exceeds the whole sequence's value.
proof fn lemma_digits_val_grows(t: Seq<char>, upto: int)
    requires
        0 <= upto <= t.len(),
        all_digits(t),
    ensures
        digits_val(t) >= digits_val(t.subrange(0, upto)),
    decreases t.len() - upto,
{
    let prefix = t.subrange(0, upto);
    assert(all_digits(prefix)) by {
        assert forall|k: int| 0 <= k < prefix.len() implies crate::dates::is_digit(
            #[trigger] prefix[k],
        ) by {
            assert(prefix[k] == t[k]);
        }
    }
    lemma_digits_val_nonneg(prefix);
    if upto < t.len() {
        let next = t.subrange(0, upto + 1);
        assert(next.drop_last() =~= prefix);
        assert(digits_val(next) == digits_val(prefix) * 10 + ((next.last() as u32) - 48));
        assert(digits_val(next) >= digits_val(prefix)) by (nonlinear_arith)
            requires
                digits_val(next) == digits_val(prefix) * 10 + ((next.last() as u32) - 48),
                digits_val(prefix) >= 0,
                48 <= next.last() as u32,
        ;
        lemma_digits_val_grows(t, upto + 1);
        assert(digits_val(t) >= digits_val(t.subrange(0, upto + 1)));
    } else {
        assert(prefix =~= t);
    }
}

/// Parses an unsigned decimal integer; `None` when the text is
/// malformed or the value does not fit in a `u64`.
pub fn parse_u64(s: &Vec<char>) -> (r: Option<u64>)
    ensures
        match r {
            Some(v) => dec_val_of(s@) == Some(v as int),
            None => match dec_val_of(s@) {
                Some(v) => v > u64::MAX,
                None => true,
            },
        },
{
    let n = s.len();
    let start: usize = if n > 0 && s[0] == '+' {
        1
    } else {
        0
    };
    let ghost t = if s@.len() > 0 && s@[0] == '+' {
        s@.drop_first()
    } else {
        s@
    };
    proof {
        assert(t =~= s@.subrange(start as int, n as int));
    }
    if start >= n {
        assert(t.len() == 0);
        return None;
    }
    let mut acc: u64 = 0;
    let mut i: usize = start;
    while i < n
        invariant
            start <= i <= n,
            n == s@.len(),
            start < n,
            t == s@.subrange(start as int, n as int),
            t == (if s@.len() > 0 && s@[0] == '+' {
                s@.drop_first()
            } else {
                s@
            }),
            forall|k: int| start <= k < i ==> crate::dates::is_digit(#[trigger] s@[k]),
            acc as int == digits_val(s@.subrange(start as int, i as int)),
        decreases n - i,
    {
        let c = s[i];
        let u = c as u32;
        if !(48 <= u && u <= 57) {
            proof {
                assert(t[i - start] == s@[i as int]);
                assert(!crate::dates::is_digit(t[i - start]));
                assert(!all_digits(t));
            }
            return None;
        }
        let ghost prefix = s@.subrange(start as int, i as int);
        let d = (u - 48) as u64;
        let overflowed: bool = match acc.checked_mul(10) {
            Some(v) => match v.checked_add(d) {
                Some(v2) => {
                    proof {
                        assert(s@.subrange(start as int, i + 1).drop_last() =~= prefix);
                        assert(s@.subrange(start as int, i + 1).last() == s@[i as int]);
                    }
                    acc = v2;
                    false
                },
                None => true,
            },
            None => true,
        };
        if overflowed {
            // every longer digit prefix has at least this value
            proof {
                if all_digits(t) {
                    let next = t.subrange(0, i - start + 1);
                    assert(next.drop_last() =~= prefix);
                    assert(next.last() == t[i - start] && t[i - start] == s@[i as int]);
                    assert(digits_val(next) == (acc as int) * 10 + (u - 48));
                    assert(digits_val(next) > u64::MAX);
                    lemma_digits_val_grows(t, i - start + 1);
                    assert(digits_val(t) > u64::MAX);
                }
            }
            return None;
        }
        i = i + 1;
    }
    proof {
        assert(s@.subrange(start as int, n as int) =~= t);
        assert(all_digits(t)) by {
            assert forall|k: int| 0 <= k < t.len() implies crate::dates::is_digit(
                #[trigger] t[k],
            ) by {
                assert(t[k] == s@[start + k]);
            }
        }
    }
    Some(acc)
}

} // verus!
