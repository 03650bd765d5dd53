//! Identifiers and pseudo-random attributes derived from the block time.

use vstd::prelude::*;

verus! {

/// The decimal digit character for `d`.
pub open spec fn digit_char(d: nat) -> char {
    (48 + d) as char
}

/// The decimal representation of `n`, without leading zeros.
pub open spec fn decimal(n: nat) -> Seq<char>
    decreases n,
{
    if n < 10 {
        seq![digit_char(n)]
    } else {
        decimal(n / 10).push(digit_char(n % 10))
    }
}

/// The single-character string for the digit `d`.
fn digit_str(d: u64) -> (s: &'static str)
    requires
        d < 10,
    ensures
        s@ == seq![digit_char(d as nat)],
{
    if d == 0 {
        proof { reveal_strlit("0"); }
        "0"
    } else if d == 1 {
        proof { reveal_strlit("1"); }
        "1"
    } else if d == 2 {
        proof { reveal_strlit("2"); }
        "2"
    } else if d == 3 {
        proof { reveal_strlit("3"); }
        "3"
    } else if d == 4 {
        proof { reveal_strlit("4"); }
        "4"
    } else if d == 5 {
        proof { reveal_strlit("5"); }
        "5"
    } else if d == 6 {
        proof { reveal_strlit("6"); }
        "6"
    } else if d == 7 {
        proof { reveal_strlit("7"); }
        "7"
    } else if d == 8 {
        proof { reveal_strlit("8"); }
        "8"
    } else {
        proof { reveal_strlit("9"); }
        "9"
    }
}

fn push_decimal(s: &mut String, n: u64)
    ensures
        final(s)@ == old(s)@ + decimal(n as nat),
    decreases n,
{
    if n >= 10 {
        push_decimal(s, n / 10);
    }
    s.append(digit_str(n % 10));
    proof {
        if n >= 10 {
            assert(decimal(n as nat) == decimal((n / 10) as nat).push(digit_char((n % 10) as nat)));
        }
    }
}

/// The id of an item minted at `nanos`: the decimal representation of the
/// block time in nanoseconds.
pub fn generate_id(nanos: u64) -> (id: String)
    ensures
        id@ == decimal(nanos as nat),
{
    let mut s = String::new();
    push_decimal(&mut s, nanos);
    assert(s@ =~= decimal(nanos as nat));
    s
}

/// A decimal representation has at least one digit, and two digits or more
/// from ten on.
pub proof fn lemma_decimal_len(n: nat)
    ensures
        decimal(n).len() >= 1,
        n >= 10 ==> decimal(n).len() >= 2,
    decreases n,
{
    if n >= 10 {
        lemma_decimal_len(n / 10);
    }
}

proof fn lemma_digit_char_injective(x: nat, y: nat)
    requires
        x < 10,
        y < 10,
        digit_char(x) == digit_char(y),
    ensures
        x == y,
{
    assert(digit_char(x) as u32 == 48 + x);
    assert(digit_char(y) as u32 == 48 + y);
}

/// Distinct times give distinct ids.
pub proof fn lemma_decimal_injective(a: nat, b: nat)
    requires
        decimal(a) == decimal(b),
    ensures
        a == b,
    decreases a,
{
    lemma_decimal_len(a);
    lemma_decimal_len(b);
    if a >= 10 && b >= 10 {
        let da = decimal(a);
        let db = decimal(b);
        assert(da.last() == db.last());
        assert(da.drop_last() =~= decimal(a / 10));
        assert(db.drop_last() =~= decimal(b / 10));
        lemma_decimal_injective(a / 10, b / 10);
        assert(digit_char(a % 10) == digit_char(b % 10));
        lemma_digit_char_injective(a % 10, b % 10);
    } else if a < 10 && b < 10 {
        assert(decimal(a)[0] == digit_char(a));
        assert(decimal(b)[0] == digit_char(b));
        lemma_digit_char_injective(a, b);
    }
}

/// A pseudo-random number in `min..max`, drawn from `seed`.
pub open spec fn spec_rand_between(seed: nat, min: nat, max: nat) -> nat
    recommends
        min < max,
{
    min + seed % ((max - min) as nat)
}

/// A pseudo-random number at least `min` and below `max`, drawn from `seed`.
pub fn rand_int_between(seed: u64, min: u8, max: u8) -> (r: u8)
    requires
        min < max,
    ensures
        r == spec_rand_between(seed as nat, min as nat, max as nat),
        min <= r < max,
{
    let span: u64 = (max - min) as u64;
    let offset: u64 = seed % span;
    assert(offset < span);
    min + (offset as u8)
}

/// Whether `c` is one of the decimal digits `0` to `9`.
pub open spec fn is_digit(c: char) -> bool {
    48 <= c as u32 <= 57
}

/// The number that a string of decimal digits reads as, most significant
/// digit first.
pub open spec fn numeral_value(s: Seq<char>) -> int
    decreases s.len(),
{
    if s.len() == 0 {
        0
    } else {
        numeral_value(s.drop_last()) * 10 + (s.last() as u32 - 48)
    }
}

/// An id reads back as the time it was made from: it is made of decimal
/// digits only, read as a base-10 numeral it is `n`, and it has no leading
/// zero (unless `n` is zero).
pub proof fn law_decimal_reads_back(n: nat)
    ensures
        forall|i: int| 0 <= i < decimal(n).len() ==> is_digit(#[trigger] decimal(n)[i]),
        numeral_value(decimal(n)) == n,
        decimal(n)[0] == '0' ==> n == 0,
    decreases n,
{
    lemma_decimal_len(n);
    let d = digit_char(n % 10);
    assert(d as u32 == 48 + n % 10);
    if n < 10 {
        let s = decimal(n);
        assert(s.drop_last() =~= Seq::<char>::empty());
        assert(s.last() == d);
        assert(numeral_value(s.drop_last()) == 0);
        assert(numeral_value(s) == numeral_value(s.drop_last()) * 10 + (s.last() as u32 - 48));
    } else {
        law_decimal_reads_back(n / 10);
        lemma_decimal_len(n / 10);
        let p = decimal(n / 10);
        let s = decimal(n);
        assert(s == p.push(d));
        assert(s.drop_last() =~= p);
        assert(s.last() == d);
        assert(s[0] == p[0]);
        vstd::arithmetic::div_mod::lemma_fundamental_div_mod(n as int, 10);
        assert(numeral_value(s) == numeral_value(p) * 10 + (d as u32 - 48));
        assert(numeral_value(p) == n / 10);
        assert((n / 10) * 10 + n % 10 == n);
        assert forall|i: int| 0 <= i < s.len() implies is_digit(#[trigger] s[i]) by {
            if i < p.len() {
                assert(s[i] == p[i]);
            }
        }
    }
}

/// A draw from a seed below the span is `min` plus the seed.
pub proof fn law_draw_of_small_seed(seed: nat, min: nat, max: nat)
    requires
        min < max,
        seed < max - min,
    ensures
        spec_rand_between(seed, min, max) == min + seed,
{
    vstd::arithmetic::div_mod::lemma_small_mod(seed, (max - min) as nat);
}

/// The next seed draws the next number, wrapping from `max - 1` back to
/// `min`: every seed is used in full, and consecutive seeds never draw the
/// same number (for a span above one).
pub proof fn law_draw_steps_with_seed(seed: nat, min: nat, max: nat)
    requires
        min < max,
    ensures
        min <= spec_rand_between(seed, min, max) < max,
        spec_rand_between(seed + 1, min, max) == if spec_rand_between(seed, min, max) + 1 == max {
            min
        } else {
            spec_rand_between(seed, min, max) + 1
        },
{
    let span = (max - min) as int;
    let q = seed as int / span;
    let r = seed as int % span;
    vstd::arithmetic::div_mod::lemma_fundamental_div_mod(seed as int, span);
    vstd::arithmetic::div_mod::lemma_mod_bound(seed as int, span);
    assert(seed == q * span + r) by (nonlinear_arith)
        requires
            seed == span * q + r,
    ;
    if r + 1 < span {
        vstd::arithmetic::div_mod::lemma_fundamental_div_mod_converse_mod((seed + 1) as int, span, q, r + 1);
    } else {
        assert(seed + 1 == (q + 1) * span + 0) by (nonlinear_arith)
            requires
                seed == q * span + r,
                r + 1 == span,
        ;
        vstd::arithmetic::div_mod::lemma_fundamental_div_mod_converse_mod((seed + 1) as int, span, q + 1, 0);
    }
}

} // verus!
