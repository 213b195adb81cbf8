use vstd::prelude::*;

use crate::digit::{char_value, digit_char, is_digit_of, lemma_char_value_digit, lemma_digit_char_value};

verus! {

/// Every character of `s` is a digit of the numeral system with this radix.
pub open spec fn all_digits_of(s: Seq<char>, radix: nat) -> bool {
    forall|i: int| 0 <= i < s.len() ==> is_digit_of(#[trigger] s[i], radix)
}

/// `s` starts with `0` only when it is the single digit `0`.
pub open spec fn no_leading_zero(s: Seq<char>) -> bool {
    s.len() > 1 ==> s[0] != '0'
}

/// A digit string as the entry keeps it: digits of the radix, no superfluous zero.
pub open spec fn is_canonical(s: Seq<char>, radix: nat) -> bool {
    all_digits_of(s, radix) && no_leading_zero(s)
}

/// The number that the positional digit string `s` denotes; the empty string denotes 0.
pub open spec fn value_of(s: Seq<char>, radix: nat) -> nat
    decreases s.len(),
{
    if s.len() == 0 {
        0
    } else {
        value_of(s.drop_last(), radix) * radix + char_value(s.last())
    }
}

/// The shortest positional digit string of `n` in this radix (`0` for zero).
pub open spec fn render(n: nat, radix: nat) -> Seq<char>
    decreases n,
    via render_decreases
{
    if radix < 2 || n < radix {
        seq![digit_char(n)]
    } else {
        render(n / radix, radix).push(digit_char(n % radix))
    }
}

/// Dividing by a radix of at least 2 shrinks a number that is not below the radix.
pub proof fn lemma_quotient(n: nat, radix: nat)
    requires
        2 <= radix <= n,
    ensures
        1 <= n / radix < n,
{
    assert(1 <= n / radix < n) by (nonlinear_arith)
        requires
            2 <= radix <= n,
    ;
}

#[via_fn]
proof fn render_decreases(n: nat, radix: nat) {
    if radix >= 2 && n >= radix {
        lemma_quotient(n, radix);
    }
}

pub proof fn lemma_render_len(n: nat, radix: nat)
    ensures
        render(n, radix).len() >= 1,
    decreases n,
{
    if radix >= 2 && n >= radix {
        lemma_quotient(n, radix);
        lemma_render_len(n / radix, radix);
    }
}

/// A single digit denotes its own value.
pub proof fn lemma_value_of_single(s: Seq<char>, radix: nat)
    requires
        s.len() == 1,
    ensures
        value_of(s, radix) == char_value(s[0]),
{
    assert(s.drop_last() =~= Seq::<char>::empty());
    assert(value_of(s.drop_last(), radix) == 0);
    assert(0 * radix == 0);
}

/// Reading the rendered digits gives the number back.
pub proof fn lemma_value_of_render(n: nat, radix: nat)
    requires
        2 <= radix <= 16,
    ensures
        value_of(render(n, radix), radix) == n,
    decreases n,
{
    let s = render(n, radix);
    if n < radix {
        lemma_digit_char_value(n);
        lemma_value_of_single(s, radix);
    } else {
        let q = n / radix;
        let d = n % radix;
        lemma_quotient(n, radix);
        lemma_value_of_render(q, radix);
        lemma_digit_char_value(d);
        assert(s.drop_last() =~= render(q, radix));
        assert(q * radix + d == n) by (nonlinear_arith)
            requires
                q == n / radix,
                d == n % radix,
                radix > 0,
        ;
    }
}

/// The rendered digits of a positive number do not start with `0`.
pub proof fn lemma_render_first(n: nat, radix: nat)
    requires
        2 <= radix <= 16,
        n >= 1,
    ensures
        render(n, radix)[0] != '0',
    decreases n,
{
    if n >= radix {
        let q = n / radix;
        assert(q >= 1) by (nonlinear_arith)
            requires
                q == n / radix,
                n >= radix,
                radix > 0,
        ;
        lemma_render_len(q, radix);
        lemma_render_first(q, radix);
        assert(render(n, radix)[0] == render(q, radix)[0]);
    }
}

/// What `render` produces is a canonical digit string.
pub proof fn lemma_render_canonical(n: nat, radix: nat)
    requires
        2 <= radix <= 16,
    ensures
        is_canonical(render(n, radix), radix),
        render(n, radix).len() >= 1,
    decreases n,
{
    lemma_render_len(n, radix);
    let s = render(n, radix);
    if n < radix {
        lemma_digit_char_value(n);
    } else {
        let q = n / radix;
        let d = n % radix;
        lemma_render_canonical(q, radix);
        lemma_digit_char_value(d);
        assert(q >= 1) by (nonlinear_arith)
            requires
                q == n / radix,
                n >= radix,
                radix > 0,
        ;
        lemma_render_first(n, radix);
        assert forall|i: int| 0 <= i < s.len() implies is_digit_of(#[trigger] s[i], radix) by {
            if i < s.len() - 1 {
                assert(s[i] == render(q, radix)[i]);
            }
        }
    }
}

/// A digit string without a leading zero that is not `0` denotes a positive number.
pub proof fn lemma_value_positive(s: Seq<char>, radix: nat)
    requires
        2 <= radix <= 16,
        s.len() >= 1,
        all_digits_of(s, radix),
        s[0] != '0',
    ensures
        value_of(s, radix) >= 1,
    decreases s.len(),
{
    if s.len() == 1 {
        assert(s.drop_last().len() == 0);
        assert(s.last() == s[0]);
    } else {
        let t = s.drop_last();
        assert(t[0] == s[0]);
        assert(all_digits_of(t, radix)) by {
            assert forall|i: int| 0 <= i < t.len() implies is_digit_of(#[trigger] t[i], radix) by {
                assert(t[i] == s[i]);
            }
        }
        lemma_value_positive(t, radix);
        assert(value_of(t, radix) * radix >= 1) by (nonlinear_arith)
            requires
                value_of(t, radix) >= 1,
                radix >= 2,
        ;
    }
}

/// Rendering the number that a canonical, non-empty digit string denotes gives the string back.
pub proof fn lemma_render_value_of(s: Seq<char>, radix: nat)
    requires
        2 <= radix <= 16,
        s.len() >= 1,
        is_canonical(s, radix),
    ensures
        render(value_of(s, radix), radix) == s,
    decreases s.len(),
{
    let c = s.last();
    assert(is_digit_of(s[s.len() - 1], radix));
    lemma_char_value_digit(c);
    let d = char_value(c);
    if s.len() == 1 {
        assert(s.drop_last().len() == 0);
        lemma_value_of_single(s, radix);
        assert(render(d, radix) =~= s);
    } else {
        let t = s.drop_last();
        assert(t[0] == s[0]);
        assert(all_digits_of(t, radix)) by {
            assert forall|i: int| 0 <= i < t.len() implies is_digit_of(#[trigger] t[i], radix) by {
                assert(t[i] == s[i]);
            }
        }
        lemma_render_value_of(t, radix);
        lemma_value_positive(t, radix);
        let v = value_of(t, radix);
        let n = value_of(s, radix);
        assert(n == v * radix + d);
        assert(n >= radix && n / radix == v && n % radix == d) by (nonlinear_arith)
            requires
                n == v * radix + d,
                v >= 1,
                d < radix,
                radix >= 2,
        ;
        assert(render(n, radix) =~= t.push(c));
        assert(t.push(c) =~= s);
    }
}

/// The number that a prefix denotes is at most the number that the whole string denotes.
pub proof fn lemma_value_of_prefix(s: Seq<char>, j: int, radix: nat)
    requires
        0 <= j <= s.len(),
        radix >= 1,
    ensures
        value_of(s.take(j), radix) <= value_of(s, radix),
    decreases s.len(),
{
    if j < s.len() {
        let t = s.drop_last();
        assert(s.take(j) =~= t.take(j));
        lemma_value_of_prefix(t, j, radix);
        assert(value_of(t, radix) * radix >= value_of(t, radix)) by (nonlinear_arith)
            requires
                radix >= 1,
        ;
    } else {
        assert(s.take(j) =~= s);
    }
}

/// The value of the digit character `c`, or 16 where `c` is no digit.
pub fn char_to_digit(c: char) -> (r: u8)
    ensures
        r as nat == char_value(c),
{
    match c {
        '0' => 0,
        '1' => 1,
        '2' => 2,
        '3' => 3,
        '4' => 4,
        '5' => 5,
        '6' => 6,
        '7' => 7,
        '8' => 8,
        '9' => 9,
        'A' => 10,
        'B' => 11,
        'C' => 12,
        'D' => 13,
        'E' => 14,
        'F' => 15,
        _ => 16,
    }
}

/// The character of the digit value `d`.
pub fn digit_to_char(d: u8) -> (r: char)
    requires
        d < 16,
    ensures
        r == digit_char(d as nat),
{
    match d {
        0 => '0',
        1 => '1',
        2 => '2',
        3 => '3',
        4 => '4',
        5 => '5',
        6 => '6',
        7 => '7',
        8 => '8',
        9 => '9',
        10 => 'A',
        11 => 'B',
        12 => 'C',
        13 => 'D',
        14 => 'E',
        _ => 'F',
    }
}

/// Relies on `String::push`: the character is appended at the end.
#[verifier::external_body]
pub(crate) fn push_char(s: &mut String, c: char)
    ensures
        final(s)@ == old(s)@.push(c),
{
    s.push(c)
}

/// Reads the digit string `s` in this radix; `None` when the number exceeds `i128::MAX`.
pub fn parse_radix(s: &str, radix: u8) -> (r: Option<i128>)
    requires
        2 <= radix <= 16,
        all_digits_of(s@, radix as nat),
    ensures
        r == (if value_of(s@, radix as nat) <= i128::MAX {
            Some(value_of(s@, radix as nat) as i128)
        } else {
            None
        }),
{
    let n = s.unicode_len();
    let rd = radix as i128;
    let mut v: i128 = 0;
    let mut i: usize = 0;
    assert(s@.take(0) =~= Seq::<char>::empty());
    while i < n
        invariant
            n == s@.len(),
            0 <= i <= n,
            rd == radix as i128,
            2 <= radix <= 16,
            all_digits_of(s@, radix as nat),
            0 <= v,
            v as nat == value_of(s@.take(i as int), radix as nat),
        decreases n - i,
    {
        let c = s.get_char(i);
        let d = char_to_digit(c) as i128;
        assert(is_digit_of(s@[i as int], radix as nat));
        let ghost pre = s@.take(i as int + 1);
        assert(pre.drop_last() =~= s@.take(i as int));
        assert(pre.last() == c);
        assert(value_of(pre, radix as nat) == v * rd + d);
        match v.checked_mul(rd) {
            None => {
                proof {
                    lemma_value_of_prefix(s@, i as int + 1, radix as nat);
                }
                return None;
            },
            Some(m) => match m.checked_add(d) {
                None => {
                    proof {
                        lemma_value_of_prefix(s@, i as int + 1, radix as nat);
                    }
                    return None;
                },
                Some(w) => {
                    assert(m >= 0) by (nonlinear_arith)
                        requires
                            m == v * rd,
                            v >= 0,
                            rd >= 2,
                    ;
                    v = w;
                },
            },
        }
        i = i + 1;
    }
    assert(s@.take(n as int) =~= s@);
    Some(v)
}

/// Writes `n` in this radix, as `render` describes.
pub fn render_radix(n: u128, radix: u8) -> (r: String)
    requires
        2 <= radix <= 16,
    ensures
        r@ == render(n as nat, radix as nat),
    decreases n,
{
    let rd = radix as u128;
    if n < rd {
        let mut s = String::new();
        push_char(&mut s, digit_to_char(n as u8));
        s
    } else {
        assert(n / rd < n) by (nonlinear_arith)
            requires
                2 <= rd <= n,
        ;
        let mut s = render_radix(n / rd, radix);
        push_char(&mut s, digit_to_char((n % rd) as u8));
        s
    }
}

} // verus!
