use vstd::prelude::*;
use vstd::arithmetic::div_mod::{lemma_div_decreases, lemma_fundamental_div_mod};

verus! {

/// The character standing for a single decimal digit value.
pub open spec fn digit_char(d: nat) -> char {
    if d == 0 {
        '0'
    } else if d == 1 {
        '1'
    } else if d == 2 {
        '2'
    } else if d == 3 {
        '3'
    } else if d == 4 {
        '4'
    } else if d == 5 {
        '5'
    } else if d == 6 {
        '6'
    } else if d == 7 {
        '7'
    } else if d == 8 {
        '8'
    } else {
        '9'
    }
}

/// Decimal representation of `n`: most significant digit first, no
/// leading zeros (`0` is written as the single digit `'0'`).
pub open spec fn dec_rep(n: nat) -> Seq<char>
    decreases n,
{
    if n < 10 {
        seq![digit_char(n)]
    } else {
        dec_rep(n / 10).push(digit_char(n % 10))
    }
}

pub proof fn lemma_dec_rep_len(n: nat)
    ensures
        dec_rep(n).len() >= 1,
        n >= 10 ==> dec_rep(n).len() >= 2,
    decreases n,
{
    if n >= 10 {
        lemma_dec_rep_len(n / 10);
    }
}

/// Two distinct numbers never share a decimal representation.
pub proof fn lemma_dec_rep_injective(m: nat, n: nat)
    ensures
        dec_rep(m) == dec_rep(n) ==> m == n,
    decreases m,
{
    if dec_rep(m) == dec_rep(n) {
        lemma_dec_rep_len(m);
        lemma_dec_rep_len(n);
        if m < 10 && n < 10 {
            assert(dec_rep(m)[0] == dec_rep(n)[0]);
        } else if m < 10 && n >= 10 {
            assert(dec_rep(m).len() == 1);
            assert(dec_rep(n).len() >= 2);
        } else if m >= 10 && n < 10 {
            assert(dec_rep(m).len() >= 2);
            assert(dec_rep(n).len() == 1);
        } else {
            let pm = dec_rep((m / 10) as nat);
            let pn = dec_rep((n / 10) as nat);
            assert(pm.push(digit_char(m % 10)) == pn.push(digit_char(n % 10)));
            assert(pm.len() == pn.len());
            assert(pm.push(digit_char(m % 10))[pm.len() as int] == digit_char(m % 10));
            assert(pn.push(digit_char(n % 10))[pn.len() as int] == digit_char(n % 10));
            assert(digit_char(m % 10) == digit_char(n % 10));
            assert(m % 10 == n % 10);
            assert forall|i: int| 0 <= i < pm.len() implies pm[i] == pn[i] by {
                assert(pm[i] == pm.push(digit_char(m % 10))[i]);
                assert(pn[i] == pn.push(digit_char(n % 10))[i]);
            }
            assert(pm =~= pn);
            lemma_div_decreases(m as int, 10);
            lemma_dec_rep_injective((m / 10) as nat, (n / 10) as nat);
            lemma_fundamental_div_mod(m as int, 10);
            lemma_fundamental_div_mod(n as int, 10);
        }
    }
}

/// One decimal digit as a character.
pub fn digit_to_char(d: usize) -> (c: char)
    requires
        d < 10,
    ensures
        c == digit_char(d as nat),
{
    if d == 0 {
        '0'
    } else if d == 1 {
        '1'
    } else if d == 2 {
        '2'
    } else if d == 3 {
        '3'
    } else if d == 4 {
        '4'
    } else if d == 5 {
        '5'
    } else if d == 6 {
        '6'
    } else if d == 7 {
        '7'
    } else if d == 8 {
        '8'
    } else {
        '9'
    }
}

/// Render `n` in decimal.
pub fn usize_to_string(n: usize) -> (r: String)
    ensures
        r@ == dec_rep(n as nat),
    decreases n,
{
    if n < 10 {
        let mut s = String::new();
        crate::strutil::push_char(&mut s, digit_to_char(n));
        proof {
            assert(s@ =~= dec_rep(n as nat));
        }
        s
    } else {
        proof {
            lemma_div_decreases(n as int, 10);
        }
        let mut s = usize_to_string(n / 10);
        crate::strutil::push_char(&mut s, digit_to_char(n % 10));
        s
    }
}

} // verus!
