//! Decimal numerals as character sequences: their values, their canonical
//! rendering, and value-based comparison.

use vstd::prelude::*;
use vstd::arithmetic::mul::{lemma_mul_is_distributive_add, lemma_mul_is_associative};
use vstd::arithmetic::div_mod::{lemma_fundamental_div_mod, lemma_fundamental_div_mod_converse};
use crate::text::lex_cmp;
use crate::text::lemma_lex_cmp_basic;
use crate::text::subvec;
use crate::text::lex_compare;

verus! {

/// True for the characters `'0'` through `'9'`.
pub open spec fn is_digit(c: char) -> bool {
    '0' <= c && c <= '9'
}

/// The value of a digit character.
pub open spec fn digit_val(c: char) -> int {
    if c == '0' {
        0
    } else if c == '1' {
        1
    } else if c == '2' {
        2
    } else if c == '3' {
        3
    } else if c == '4' {
        4
    } else if c == '5' {
        5
    } else if c == '6' {
        6
    } else if c == '7' {
        7
    } else if c == '8' {
        8
    } else if c == '9' {
        9
    } else {
        10
    }
}

/// The digit character for a value between 0 and 9.
pub open spec fn digit_char(d: int) -> char {
    if d == 0 {
        '0'
    } else if d == 1 {
        '1'
    } else if d == 2 {
        '2'
    } else if d == 3 {
        '3'
    } else if d == 4 {
        '4'
    } else if d == 5 {
        '5'
    } else if d == 6 {
        '6'
    } else if d == 7 {
        '7'
    } else if d == 8 {
        '8'
    } else {
        '9'
    }
}

/// True when every character of `s` is a digit.
pub open spec fn all_digits(s: Seq<char>) -> bool {
    forall|i: int| 0 <= i < s.len() ==> is_digit(#[trigger] s[i])
}

/// True for a non-empty sequence of digits.
pub open spec fn is_numeric(s: Seq<char>) -> bool {
    s.len() > 0 && all_digits(s)
}

/// True for a canonical decimal numeral: digits only, and no leading zero
/// except for the numeral `0` itself.
pub open spec fn is_num_id(s: Seq<char>) -> bool {
    is_numeric(s) && (s.len() > 1 ==> s[0] != '0')
}

/// Ten to the power `n`.
pub open spec fn pow10(n: nat) -> int
    decreases n,
{
    if n == 0 {
        1
    } else {
        10 * pow10((n - 1) as nat)
    }
}

/// The numeric value of a digit sequence, most significant digit first.
pub open spec fn digits_val(s: Seq<char>) -> int
    decreases s.len(),
{
    if s.len() == 0 {
        0
    } else {
        digits_val(s.drop_last()) * 10 + digit_val(s.last())
    }
}

/// The canonical decimal numeral of a natural number.
pub open spec fn digits_of(n: nat) -> Seq<char>
    decreases n,
{
    if n < 10 {
        seq![digit_char(n as int)]
    } else {
        digits_of(n / 10).push(digit_char((n % 10) as int))
    }
}

pub proof fn lemma_pow10_pos(n: nat)
    ensures
        pow10(n) >= 1,
    decreases n,
{
    if n > 0 {
        lemma_pow10_pos((n - 1) as nat);
    }
}

pub proof fn lemma_pow10_mono(m: nat, n: nat)
    requires
        m <= n,
    ensures
        pow10(m) <= pow10(n),
    decreases n,
{
    lemma_pow10_pos(m);
    if m < n {
        lemma_pow10_mono(m, (n - 1) as nat);
    }
}

/// A digit sequence's value lies between `0` (inclusive) and `pow10` of its
/// length (exclusive), and a nonzero leading digit puts it at or above
/// `pow10` of one less than its length.
pub proof fn lemma_digits_val_bounds(s: Seq<char>)
    requires
        all_digits(s),
    ensures
        0 <= digits_val(s) < pow10(s.len()),
        s.len() >= 1 && s[0] != '0' ==> digits_val(s) >= pow10((s.len() - 1) as nat),
    decreases s.len(),
{
    if s.len() == 0 {
    } else {
        lemma_digits_val_bounds(s.drop_last());
        lemma_pow10_pos((s.len() - 1) as nat);
        if s.len() >= 2 {
            assert(s.drop_last()[0] == s[0]);
        }
    }
}

/// The canonical numeral of `n` has value `n`, consists of digits, and has no
/// leading zero.
pub proof fn lemma_digits_of_spec(n: nat)
    ensures
        is_num_id(digits_of(n)),
        digits_val(digits_of(n)) == n,
        n >= 1 ==> digits_of(n)[0] != '0',
        digits_of(n).len() >= 1,
    decreases n,
{
    if n < 10 {
        assert(digits_of(n).drop_last() =~= Seq::<char>::empty());
        assert(digits_val(Seq::<char>::empty()) == 0);
        assert(digits_of(n).last() == digit_char(n as int));
        assert(digit_val(digit_char(n as int)) == n);
    } else {
        lemma_digits_of_spec(n / 10);
        let w = digits_of(n / 10);
        assert(digits_of(n).drop_last() =~= w);
        assert(digits_of(n)[0] == w[0]);
        lemma_fundamental_div_mod(n as int, 10);
        assert(digits_val(digits_of(n)) == digits_val(w) * 10 + digit_val(
            digit_char((n % 10) as int),
        ));
        assert(digit_val(digit_char((n % 10) as int)) == n % 10);
    }
}

/// A canonical numeral is recovered exactly from its value.
pub proof fn lemma_digits_of_val(s: Seq<char>)
    requires
        is_num_id(s),
    ensures
        digits_val(s) >= 0,
        digits_of(digits_val(s) as nat) == s,
    decreases s.len(),
{
    lemma_digits_val_bounds(s);
    if s.len() == 1 {
        assert(s.drop_last() =~= Seq::<char>::empty());
        assert(digits_val(Seq::<char>::empty()) == 0);
        assert(is_digit(s[0]) && s.last() == s[0]);
        assert(digits_val(s) == digit_val(s[0]));
        assert(digit_char(digit_val(s[0])) == s[0]);
        assert(digits_of(digits_val(s) as nat) =~= s);
    } else {
        let w = s.drop_last();
        let d = digit_val(s.last());
        assert(w[0] == s[0]);
        assert(is_num_id(w));
        lemma_digits_of_val(w);
        lemma_digits_val_bounds(w);
        lemma_pow10_pos((w.len() - 1) as nat);
        let v = digits_val(s);
        assert(v == digits_val(w) * 10 + d);
        assert(digits_val(w) >= 1);
        assert(v >= 10);
        assert(is_digit(s.last()));
        assert(0 <= d <= 9);
        lemma_fundamental_div_mod_converse(v, 10, digits_val(w), d);
        assert(v / 10 == digits_val(w) && v % 10 == d);
        assert(digit_char(d) == s.last());
        assert((v as nat) / 10 == digits_val(w) as nat);
        assert(((v as nat) % 10) as int == d);
        assert(digits_of(v as nat) == digits_of((v as nat) / 10).push(
            digit_char(((v as nat) % 10) as int),
        ));
        assert(digits_of((v as nat) / 10) == w);
        assert(digits_of(v as nat) =~= s);
    }
}

/// The value of a digit sequence, decomposed at its first digit.
pub proof fn lemma_digits_val_front(s: Seq<char>)
    requires
        s.len() >= 1,
    ensures
        digits_val(s) == digit_val(s[0]) * pow10((s.len() - 1) as nat) + digits_val(
            s.drop_first(),
        ),
    decreases s.len(),
{
    if s.len() == 1 {
        assert(s.drop_last() =~= Seq::<char>::empty());
        assert(s.drop_first() =~= Seq::<char>::empty());
    } else {
        let w = s.drop_last();
        lemma_digits_val_front(w);
        assert(w[0] == s[0]);
        assert(w.drop_first() =~= s.drop_first().drop_last());
        assert(s.drop_first().last() == s.last());
        let d0 = digit_val(s[0]);
        let p = pow10((s.len() - 2) as nat);
        lemma_mul_is_distributive_add(10, d0 * p, digits_val(w.drop_first()));
        lemma_mul_is_associative(d0, p, 10);
        assert(digits_val(s) == digits_val(w) * 10 + digit_val(s.last()));
        assert(digits_val(w) * 10 == (d0 * p + digits_val(w.drop_first())) * 10);
        assert((d0 * p + digits_val(w.drop_first())) * 10 == d0 * p * 10 + digits_val(
            w.drop_first(),
        ) * 10) by {
            lemma_mul_is_distributive_add(10, d0 * p, digits_val(w.drop_first()));
        }
        assert(d0 * p * 10 == d0 * (p * 10));
        assert(p * 10 == pow10((s.len() - 1) as nat));
        assert(digits_val(s.drop_first()) == digits_val(w.drop_first()) * 10 + digit_val(
            s.last(),
        ));
    }
}

/// On equal-length digit sequences, comparing values is comparing
/// lexicographically.
pub proof fn lemma_digits_val_lex(a: Seq<char>, b: Seq<char>)
    requires
        all_digits(a),
        all_digits(b),
        a.len() == b.len(),
    ensures
        digits_val(a) < digits_val(b) <==> lex_cmp(a, b) < 0,
        digits_val(a) == digits_val(b) <==> lex_cmp(a, b) == 0,
    decreases a.len(),
{
    lemma_lex_cmp_basic(a, b);
    if a.len() == 0 {
    } else {
        lemma_digits_val_front(a);
        lemma_digits_val_front(b);
        let p = pow10((a.len() - 1) as nat);
        lemma_pow10_pos((a.len() - 1) as nat);
        lemma_digits_val_bounds(a.drop_first());
        lemma_digits_val_bounds(b.drop_first());
        let da = digit_val(a[0]);
        let db = digit_val(b[0]);
        let ra = digits_val(a.drop_first());
        let rb = digits_val(b.drop_first());
        if a[0] == b[0] {
            lemma_digits_val_lex(a.drop_first(), b.drop_first());
        } else {
            assert(is_digit(a[0]) && is_digit(b[0]));
            if a[0] < b[0] {
                assert(da < db);
                assert(da * p + ra < db * p + rb) by (nonlinear_arith)
                    requires
                        da < db,
                        0 <= ra < p,
                        0 <= rb,
                        p >= 1,
                {}
            } else {
                assert(db < da);
                assert(db * p + rb < da * p + ra) by (nonlinear_arith)
                    requires
                        db < da,
                        0 <= rb < p,
                        0 <= ra,
                        p >= 1,
                {}
            }
        }
    }
}

/// Leading zeros do not change a numeral's value.
pub open spec fn strip_zeros(s: Seq<char>) -> Seq<char>
    decreases s.len(),
{
    if s.len() > 0 && s[0] == '0' {
        strip_zeros(s.drop_first())
    } else {
        s
    }
}

pub proof fn lemma_strip_zeros(s: Seq<char>)
    requires
        all_digits(s),
    ensures
        all_digits(strip_zeros(s)),
        digits_val(strip_zeros(s)) == digits_val(s),
        strip_zeros(s).len() <= s.len(),
        strip_zeros(s).len() > 0 ==> strip_zeros(s)[0] != '0',
    decreases s.len(),
{
    if s.len() > 0 && s[0] == '0' {
        lemma_digits_val_front(s);
        lemma_strip_zeros(s.drop_first());
    }
}

/// The value of a prefix of a digit sequence never exceeds the whole's value.
pub proof fn lemma_digits_val_take(s: Seq<char>, i: int)
    requires
        all_digits(s),
        0 <= i <= s.len(),
    ensures
        0 <= digits_val(s.take(i)) <= digits_val(s),
    decreases s.len(),
{
    lemma_digits_val_bounds(s);
    if i == s.len() {
        assert(s.take(i) =~= s);
    } else {
        assert(s.take(i) =~= s.drop_last().take(i));
        lemma_digits_val_take(s.drop_last(), i);
        lemma_digits_val_bounds(s.drop_last());
    }
}

/// Comparison of two non-empty digit sequences by numeric value:
/// `-1`, `0` or `1` as the first is below, at, or above the second.
pub fn compare_numeric(a: &Vec<char>, b: &Vec<char>) -> (r: i8)
    requires
        is_numeric(a@),
        is_numeric(b@),
    ensures
        r == -1 <==> digits_val(a@) < digits_val(b@),
        r == 0 <==> digits_val(a@) == digits_val(b@),
        r == 1 <==> digits_val(a@) > digits_val(b@),
{
    proof {
        lemma_strip_zeros(a@);
        lemma_strip_zeros(b@);
    }
    let sa = strip_leading_zeros(a);
    let sb = strip_leading_zeros(b);
    if sa.len() < sb.len() {
        proof {
            lemma_digits_val_bounds(sa@);
            lemma_digits_val_bounds(sb@);
            lemma_pow10_mono(sa@.len(), (sb@.len() - 1) as nat);
        }
        -1
    } else if sa.len() > sb.len() {
        proof {
            lemma_digits_val_bounds(sa@);
            lemma_digits_val_bounds(sb@);
            lemma_pow10_mono(sb@.len(), (sa@.len() - 1) as nat);
        }
        1
    } else {
        proof {
            lemma_digits_val_lex(sa@, sb@);
            lemma_lex_cmp_basic(sa@, sb@);
        }
        lex_compare(&sa, &sb)
    }
}

/// Reads a numeral as a `u128`: succeeds exactly when the characters form a
/// non-empty digit sequence whose value fits.
pub fn parse_u128(v: &Vec<char>) -> (r: Option<u128>)
    ensures
        r is Some <==> is_numeric(v@) && digits_val(v@) <= u128::MAX,
        r matches Some(n) ==> n == digits_val(v@),
{
    if v.len() == 0 {
        return None;
    }
    let mut val: u128 = 0;
    let mut i: usize = 0;
    proof {
        assert(v@.take(0) =~= Seq::<char>::empty());
    }
    while i < v.len()
        invariant
            i <= v@.len(),
            all_digits(v@.take(i as int)),
            val == digits_val(v@.take(i as int)),
        decreases v@.len() - i,
    {
        let c = v[i];
        if !(c >= '0' && c <= '9') {
            proof {
                assert(v@[i as int] == c && !is_digit(c));
            }
            return None;
        }
        let d: u128 = digit_value(c);
        if val > (u128::MAX - d) / 10 {
            proof {
                let t = v@.take(i + 1);
                assert(t.drop_last() =~= v@.take(i as int));
                assert(t.last() == c);
                assert(digits_val(t) == val * 10 + d);
                let y = u128::MAX - d;
                lemma_fundamental_div_mod(y as int, 10);
                assert(val * 10 + d > u128::MAX);
                if is_numeric(v@) && digits_val(v@) <= u128::MAX {
                    lemma_digits_val_take(v@, i + 1);
                    assert(false);
                }
            }
            return None;
        }
        proof {
            let y = u128::MAX - d;
            lemma_fundamental_div_mod(y as int, 10);
            assert(val * 10 + d <= u128::MAX);
            let t = v@.take(i + 1);
            assert(t.drop_last() =~= v@.take(i as int));
            assert(t.last() == c);
            assert(all_digits(t));
        }
        val = val * 10 + d;
        i = i + 1;
    }
    proof {
        assert(v@.take(v@.len() as int) =~= v@);
    }
    Some(val)
}

/// The value of a digit character.
fn digit_value(c: char) -> (d: u128)
    requires
        is_digit(c),
    ensures
        d == digit_val(c),
        d <= 9,
{
    if c == '0' {
        0
    } else if c == '1' {
        1
    } else if c == '2' {
        2
    } else if c == '3' {
        3
    } else if c == '4' {
        4
    } else if c == '5' {
        5
    } else if c == '6' {
        6
    } else if c == '7' {
        7
    } else if c == '8' {
        8
    } else {
        9
    }
}

/// The digit character of a value below ten.
fn value_digit(d: u128) -> (c: char)
    requires
        d <= 9,
    ensures
        c == digit_char(d as int),
{
    if d == 0 {
        '0'
    } else if d == 1 {
        '1'
    } else if d == 2 {
        '2'
    } else if d == 3 {
        '3'
    } else if d == 4 {
        '4'
    } else if d == 5 {
        '5'
    } else if d == 6 {
        '6'
    } else if d == 7 {
        '7'
    } else if d == 8 {
        '8'
    } else {
        '9'
    }
}

/// The canonical decimal numeral of `n`.
pub fn u128_to_chars(n: u128) -> (v: Vec<char>)
    ensures
        v@ == digits_of(n as nat),
{
    let mut digs: Vec<char> = Vec::new();
    let mut cur: u128 = n;
    proof {
        assert(digits_of(n as nat) + digs@.reverse() =~= digits_of(n as nat));
    }
    while cur >= 10
        invariant
            digits_of(n as nat) == digits_of(cur as nat) + digs@.reverse(),
        decreases cur,
    {
        let d = cur % 10;
        digs.push(value_digit(d));
        proof {
            let ghost prev = digs@.drop_last();
            assert(digits_of(cur as nat) == digits_of((cur as nat) / 10).push(
                digit_char(((cur as nat) % 10) as int),
            ));
            assert((cur / 10) as nat == (cur as nat) / 10);
            assert(digs@.reverse() =~= seq![digit_char(((cur as nat) % 10) as int)]
                + prev.reverse());
            assert(digits_of((cur as nat) / 10) + digs@.reverse() =~= digits_of(cur as nat)
                + prev.reverse());
        }
        cur = cur / 10;
    }
    let d = cur;
    digs.push(value_digit(d));
    proof {
        assert(digits_of(cur as nat) =~= seq![digit_char(cur as int)]);
        assert(digs@.reverse() =~= seq![digit_char(cur as int)] + digs@.drop_last().reverse());
        assert(digits_of(n as nat) =~= digs@.reverse());
    }
    let mut v: Vec<char> = Vec::new();
    let mut i: usize = digs.len();
    while i > 0
        invariant
            i <= digs@.len(),
            v@ =~= digs@.reverse().take((digs@.len() - i) as int),
        decreases i,
    {
        i = i - 1;
        v.push(digs[i]);
        proof {
            assert(v@ =~= digs@.reverse().take((digs@.len() - i) as int));
        }
    }
    proof {
        assert(v@ =~= digs@.reverse());
    }
    v
}

/// The digits of `v` with leading zeros removed.
fn strip_leading_zeros(v: &Vec<char>) -> (r: Vec<char>)
    ensures
        r@ == strip_zeros(v@),
{
    let mut i: usize = 0;
    proof {
        assert(v@.skip(0) =~= v@);
    }
    while i < v.len() && v[i] == '0'
        invariant
            i <= v@.len(),
            strip_zeros(v@) == strip_zeros(v@.skip(i as int)),
            forall|j: int| 0 <= j < i ==> v@[j] == '0',
        decreases v@.len() - i,
    {
        proof {
            assert(v@.skip(i as int)[0] == v@[i as int]);
            assert(v@.skip(i as int).drop_first() =~= v@.skip(i + 1));
        }
        i = i + 1;
    }
    proof {
        if i < v.len() {
            assert(v@.skip(i as int)[0] == v@[i as int]);
        }
        assert(strip_zeros(v@.skip(i as int)) == v@.skip(i as int));
    }
    subvec(v, i, v.len())
}

} // verus!
