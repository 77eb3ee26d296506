use vstd::prelude::*;

verus! {

/// The character of the decimal digit `d` (`d < 10`).
pub open spec fn digit_char(d: nat) -> char {
    (48 + d) as char
}

/// Decimal representation of `n`, without leading zeros ("0" for zero).
pub open spec fn decimal(n: nat) -> Seq<char>
    decreases n,
{
    if n < 10 {
        seq![digit_char(n)]
    } else {
        decimal(n / 10).push(digit_char(n % 10))
    }
}

/// The last `width` decimal digits of `n`, with leading zeros.
pub open spec fn zero_padded(n: nat, width: nat) -> Seq<char>
    decreases width,
{
    if width == 0 {
        Seq::empty()
    } else {
        zero_padded(n / 10, (width - 1) as nat).push(digit_char(n % 10))
    }
}

/// `10` to the power `k`.
pub open spec fn pow10(k: nat) -> nat
    decreases k,
{
    if k == 0 {
        1
    } else {
        10 * pow10((k - 1) as nat)
    }
}

/// `n / d` rounded to the nearest integer, an exact half to the even
/// neighbour.
pub open spec fn round_div(n: nat, d: nat) -> nat {
    let q = n / d;
    let r = n % d;
    if 2 * r > d || (2 * r == d && q % 2 == 1) {
        q + 1
    } else {
        q
    }
}

/// The value `n / 10^scale` written with `decimals` digits after the point
/// (`decimals <= scale`), rounded to nearest with an exact half to the even
/// digit.
pub open spec fn fixed(n: nat, scale: nat, decimals: nat) -> Seq<char> {
    let q = round_div(n, pow10((scale - decimals) as nat));
    if decimals == 0 {
        decimal(q)
    } else {
        decimal(q / pow10(decimals)) + seq!['.'] + zero_padded(q % pow10(decimals), decimals)
    }
}

/// `k` spaces.
pub open spec fn spaces(k: nat) -> Seq<char> {
    Seq::new(k, |i: int| ' ')
}

/// `s` followed by spaces up to `width` characters (left-aligned field).
pub open spec fn pad_right(s: Seq<char>, width: nat) -> Seq<char> {
    if s.len() < width {
        s + spaces((width - s.len()) as nat)
    } else {
        s
    }
}

/// `s` preceded by spaces up to `width` characters (right-aligned field).
pub open spec fn pad_left(s: Seq<char>, width: nat) -> Seq<char> {
    if s.len() < width {
        spaces((width - s.len()) as nat) + s
    } else {
        s
    }
}

pub proof fn lemma_pow10_positive(k: nat)
    ensures
        pow10(k) >= 1,
    decreases k,
{
    if k > 0 {
        lemma_pow10_positive((k - 1) as nat);
    }
}

pub proof fn lemma_pow10_monotone(a: nat, b: nat)
    requires
        a <= b,
    ensures
        pow10(a) <= pow10(b),
    decreases b,
{
    lemma_pow10_positive(b);
    if a < b {
        lemma_pow10_monotone(a, (b - 1) as nat);
    }
}

pub proof fn lemma_pow10_38()
    ensures
        pow10(38) == 100000000000000000000000000000000000000,
{
    reveal_with_fuel(pow10, 39);
}

/// `String::push`: appends `c` to the end of `s`.
#[verifier::external_body]
pub(crate) fn push_char(s: &mut String, c: char)
    ensures
        final(s)@ == old(s)@.push(c),
{
    s.push(c)
}

/// Appends the decimal digit `d`.
fn push_digit(s: &mut String, d: u128)
    requires
        d < 10,
    ensures
        final(s)@ == old(s)@.push(digit_char(d as nat)),
{
    let c: char = if d == 0 {
        '0'
    } else if d == 1 {
        '1'
    } else if d == 2 {
        '2'
    } else if d == 3 {
        '3'
    } else if d == 4 {
        '4'
    } else if d == 5 {
        '5'
    } else if d == 6 {
        '6'
    } else if d == 7 {
        '7'
    } else if d == 8 {
        '8'
    } else {
        '9'
    };
    push_char(s, c);
}

/// Appends the decimal representation of `n`.
pub fn push_decimal(s: &mut String, n: u128)
    ensures
        final(s)@ == old(s)@ + decimal(n as nat),
    decreases n,
{
    if n >= 10 {
        push_decimal(s, n / 10);
    }
    push_digit(s, n % 10);
    proof {
        assert(final(s)@ =~= old(s)@ + decimal(n as nat));
    }
}

/// Appends the last `width` decimal digits of `n`, zero-padded.
pub fn push_zero_padded(s: &mut String, n: u128, width: u32)
    ensures
        final(s)@ == old(s)@ + zero_padded(n as nat, width as nat),
    decreases width,
{
    if width > 0 {
        push_zero_padded(s, n / 10, width - 1);
        push_digit(s, n % 10);
    }
    proof {
        assert(final(s)@ =~= old(s)@ + zero_padded(n as nat, width as nat));
    }
}

/// Appends `k` spaces.
pub fn push_spaces(s: &mut String, k: usize)
    ensures
        final(s)@ == old(s)@ + spaces(k as nat),
{
    let ghost s0 = s@;
    let mut i: usize = 0;
    while i < k
        invariant
            i <= k,
            s@ =~= s0 + spaces(i as nat),
        decreases k - i,
    {
        push_char(s, ' ');
        i += 1;
    }
}

/// Decides `round_div` on machine integers.
pub fn round_div_exec(n: u128, d: u128) -> (q: u128)
    requires
        d > 0,
        d <= u128::MAX / 2,
        n <= u128::MAX / 2,
    ensures
        q == round_div(n as nat, d as nat),
        q <= n,
{
    let q = n / d;
    let r = n % d;
    proof {
        vstd::arithmetic::div_mod::lemma_fundamental_div_mod(n as int, d as int);
        vstd::arithmetic::div_mod::lemma_div_is_ordered_by_denominator(n as int, 1, d as int);
        if d == 1 {
            assert(r == 0);
        }
        assert(d * q >= q) by (nonlinear_arith)
            requires
                d >= 1,
        ;
    }
    if 2 * r > d || (2 * r == d && q % 2 == 1) {
        q + 1
    } else {
        q
    }
}

/// `10^k` as a machine integer.
pub fn pow10_exec(k: u32) -> (p: u128)
    requires
        k <= 38,
    ensures
        p == pow10(k as nat),
{
    let mut p: u128 = 1;
    let mut i: u32 = 0;
    while i < k
        invariant
            i <= k <= 38,
            p == pow10(i as nat),
        decreases k - i,
    {
        proof {
            lemma_pow10_monotone((i + 1) as nat, 38);
            lemma_pow10_38();
        }
        p = p * 10;
        i += 1;
    }
    p
}

/// Appends `n / 10^scale` with `decimals` digits after the point, rounded as
/// `round_div` says.
pub fn push_fixed(s: &mut String, n: u128, scale: u32, decimals: u32)
    requires
        decimals <= scale <= 38,
        n <= u128::MAX / 2,
    ensures
        final(s)@ == old(s)@ + fixed(n as nat, scale as nat, decimals as nat),
{
    let d = pow10_exec(scale - decimals);
    proof {
        lemma_pow10_positive((scale - decimals) as nat);
        lemma_pow10_monotone((scale - decimals) as nat, 38);
        lemma_pow10_38();
    }
    let q = round_div_exec(n, d);
    if decimals == 0 {
        push_decimal(s, q);
    } else {
        let p = pow10_exec(decimals);
        proof {
            lemma_pow10_positive(decimals as nat);
        }
        push_decimal(s, q / p);
        push_char(s, '.');
        push_zero_padded(s, q % p, decimals);
    }
    proof {
        assert(final(s)@ =~= old(s)@ + fixed(n as nat, scale as nat, decimals as nat));
    }
}

/// Appends `t` left-aligned in a field of `width` characters.
pub fn push_padded_right(s: &mut String, t: &str, width: usize)
    ensures
        final(s)@ == old(s)@ + pad_right(t@, width as nat),
{
    let n = t.unicode_len();
    s.append(t);
    if n < width {
        push_spaces(s, width - n);
    }
    proof {
        assert(final(s)@ =~= old(s)@ + pad_right(t@, width as nat));
    }
}

/// Appends `t` right-aligned in a field of `width` characters.
pub fn push_padded_left(s: &mut String, t: &str, width: usize)
    ensures
        final(s)@ == old(s)@ + pad_left(t@, width as nat),
{
    let n = t.unicode_len();
    if n < width {
        push_spaces(s, width - n);
    }
    s.append(t);
    proof {
        assert(final(s)@ =~= old(s)@ + pad_left(t@, width as nat));
    }
}

/// The decimal representation of `n` as a new string.
pub fn decimal_string(n: u128) -> (t: String)
    ensures
        t@ == decimal(n as nat),
{
    let mut t = String::new();
    push_decimal(&mut t, n);
    proof {
        assert(t@ =~= decimal(n as nat));
    }
    t
}

} // verus!
