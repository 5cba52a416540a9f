//! Decimal digit strings: the spec-level shape of a number written in base
//! ten, an executable printer, and the lemmas relating a digit string back to
//! its value.

use vstd::prelude::*;
use vstd::string::StringExecFns;

verus! {

/// The character for a single decimal digit value.
pub open spec fn digit_char(d: int) -> char
    recommends
        0 <= d < 10,
{
    if d == 0 {
        '0'
    } else if d == 1 {
        '1'
    } else if d == 2 {
        '2'
    } else if d == 3 {
        '3'
    } else if d == 4 {
        '4'
    } else if d == 5 {
        '5'
    } else if d == 6 {
        '6'
    } else if d == 7 {
        '7'
    } else if d == 8 {
        '8'
    } else {
        '9'
    }
}

pub open spec fn is_digit_char(c: char) -> bool {
    48 <= c as int <= 57
}

/// The value of a single decimal digit character.
pub open spec fn digit_val(c: char) -> int
    recommends
        is_digit_char(c),
{
    c as int - 48
}

/// The digits of `n` written in base ten, most significant first, with no
/// leading zeros (a lone `'0'` for zero itself).
pub open spec fn dec_chars(n: nat) -> Seq<char>
    decreases n,
{
    if n < 10 {
        seq![digit_char(n as int)]
    } else {
        dec_chars(n / 10).push(digit_char((n % 10) as int))
    }
}

/// The value of a digit string, read most significant first.
pub open spec fn dec_val(s: Seq<char>) -> int
    decreases s.len(),
{
    if s.len() == 0 {
        0
    } else {
        dec_val(s.drop_last()) * 10 + digit_val(s.last())
    }
}

pub open spec fn all_digits(s: Seq<char>) -> bool {
    forall|i: int| 0 <= i < s.len() ==> is_digit_char(#[trigger] s[i])
}

pub proof fn lemma_digit_char_val(d: int)
    requires
        0 <= d < 10,
    ensures
        is_digit_char(digit_char(d)),
        digit_val(digit_char(d)) == d,
{
}

/// Reading back the digits of `n` yields `n`; the digits are digits, there is
/// at least one, and the first is `'0'` only for `n == 0` itself.
pub proof fn lemma_dec_chars_val(n: nat)
    ensures
        all_digits(dec_chars(n)),
        dec_chars(n).len() >= 1,
        dec_val(dec_chars(n)) == n,
        dec_chars(n)[0] == '0' <==> n == 0,
    decreases n,
{
    if n < 10 {
        lemma_digit_char_val(n as int);
        assert(dec_chars(n) =~= seq![digit_char(n as int)]);
        assert(dec_chars(n).drop_last() =~= Seq::<char>::empty());
        assert(dec_chars(n).last() == digit_char(n as int));
        assert(dec_val(Seq::<char>::empty()) == 0);
        assert(dec_val(dec_chars(n)) == digit_val(digit_char(n as int)));
    } else {
        lemma_dec_chars_val(n / 10);
        lemma_digit_char_val((n % 10) as int);
        let prefix = dec_chars(n / 10);
        let d = digit_char((n % 10) as int);
        assert(dec_chars(n) == prefix.push(d));
        assert(prefix.push(d).drop_last() =~= prefix);
        assert(prefix.push(d).last() == d);
        assert(dec_val(dec_chars(n)) == dec_val(prefix) * 10 + digit_val(d));
        assert((n / 10) * 10 + n % 10 == n) by {
            vstd::arithmetic::div_mod::lemma_fundamental_div_mod(n as int, 10);
        }
        assert(dec_chars(n)[0] == prefix[0]);
    }
}

/// The value of a digit string never goes down when more digits follow: any
/// prefix has a value no greater than the whole.
pub proof fn lemma_dec_val_prefix(s: Seq<char>, k: int)
    requires
        all_digits(s),
        0 <= k <= s.len(),
    ensures
        dec_val(s) >= dec_val(s.take(k)) >= 0,
    decreases s.len() - k,
{
    if k == s.len() {
        assert(s.take(k) =~= s);
        lemma_dec_val_nonneg(s);
    } else {
        lemma_dec_val_prefix(s, k + 1);
        assert(s.take(k + 1).drop_last() =~= s.take(k));
        assert(s.take(k + 1).last() == s[k]);
        lemma_dec_val_nonneg(s.take(k));
    }
}

pub proof fn lemma_dec_val_nonneg(s: Seq<char>)
    requires
        all_digits(s),
    ensures
        dec_val(s) >= 0,
    decreases s.len(),
{
    if s.len() > 0 {
        assert(all_digits(s.drop_last()));
        lemma_dec_val_nonneg(s.drop_last());
    }
}

/// A digit string with no leading zero is the canonical spelling of its value.
pub proof fn lemma_dec_val_canonical(s: Seq<char>)
    requires
        all_digits(s),
        s.len() >= 1,
        s[0] == '0' ==> s.len() == 1,
    ensures
        dec_chars(dec_val(s) as nat) == s,
    decreases s.len(),
{
    if s.len() == 1 {
        assert(s.drop_last() =~= Seq::<char>::empty());
        assert(s.last() == s[0]);
        assert(dec_val(Seq::<char>::empty()) == 0);
        assert(dec_val(s) == digit_val(s[0]));
        assert(dec_chars(dec_val(s) as nat) =~= seq![digit_char(digit_val(s[0]))]);
        assert(digit_char(digit_val(s[0])) == s[0]);
        assert(dec_chars(dec_val(s) as nat) =~= s);
    } else {
        let prefix = s.drop_last();
        assert(all_digits(prefix));
        assert(prefix[0] == s[0]);
        lemma_dec_val_canonical(prefix);
        lemma_dec_val_first_nonzero(prefix);
        let v = dec_val(s);
        let pv = dec_val(prefix);
        let d = digit_val(s.last());
        assert(v == pv * 10 + d);
        assert(pv >= 1);
        assert(0 <= d < 10);
        assert(v / 10 == pv && v % 10 == d) by (nonlinear_arith)
            requires
                v == pv * 10 + d,
                pv >= 1,
                0 <= d < 10,
        ;
        assert(v >= 10) by (nonlinear_arith)
            requires
                v == pv * 10 + d,
                pv >= 1,
                d >= 0,
        ;
        assert(dec_chars(v as nat) == dec_chars((v as nat) / 10).push(digit_char(((v as nat) % 10) as int)));
        assert((v as nat) / 10 == pv as nat);
        assert(((v as nat) % 10) as int == d);
        assert(digit_char(d) == s.last());
        assert(dec_chars(v as nat) =~= s);
    }
}

/// A nonempty digit string whose first digit is not `'0'` has value at least 1.
pub proof fn lemma_dec_val_first_nonzero(s: Seq<char>)
    requires
        all_digits(s),
        s.len() >= 1,
        s[0] != '0',
    ensures
        dec_val(s) >= 1,
    decreases s.len(),
{
    if s.len() == 1 {
        assert(s.drop_last() =~= Seq::<char>::empty());
        assert(s.last() == s[0]);
        assert(dec_val(Seq::<char>::empty()) == 0);
        assert(dec_val(s) == digit_val(s[0]));
    } else {
        let prefix = s.drop_last();
        assert(prefix[0] == s[0]);
        lemma_dec_val_first_nonzero(prefix);
        lemma_dec_val_nonneg(s);
        assert(dec_val(s) == dec_val(prefix) * 10 + digit_val(s.last()));
        assert(dec_val(prefix) * 10 >= 10) by (nonlinear_arith)
            requires
                dec_val(prefix) >= 1,
        ;
    }
}

/// The single-character string for a decimal digit value.
pub fn digit_str(d: u64) -> (r: &'static str)
    requires
        d < 10,
    ensures
        r@ == seq![digit_char(d as int)],
{
    if d == 0 {
        proof {
            reveal_strlit("0");
        }
        assert("0"@ =~= seq![digit_char(0)]);
        "0"
    } else if d == 1 {
        proof {
            reveal_strlit("1");
        }
        assert("1"@ =~= seq![digit_char(1)]);
        "1"
    } else if d == 2 {
        proof {
            reveal_strlit("2");
        }
        assert("2"@ =~= seq![digit_char(2)]);
        "2"
    } else if d == 3 {
        proof {
            reveal_strlit("3");
        }
        assert("3"@ =~= seq![digit_char(3)]);
        "3"
    } else if d == 4 {
        proof {
            reveal_strlit("4");
        }
        assert("4"@ =~= seq![digit_char(4)]);
        "4"
    } else if d == 5 {
        proof {
            reveal_strlit("5");
        }
        assert("5"@ =~= seq![digit_char(5)]);
        "5"
    } else if d == 6 {
        proof {
            reveal_strlit("6");
        }
        assert("6"@ =~= seq![digit_char(6)]);
        "6"
    } else if d == 7 {
        proof {
            reveal_strlit("7");
        }
        assert("7"@ =~= seq![digit_char(7)]);
        "7"
    } else if d == 8 {
        proof {
            reveal_strlit("8");
        }
        assert("8"@ =~= seq![digit_char(8)]);
        "8"
    } else {
        proof {
            reveal_strlit("9");
        }
        assert("9"@ =~= seq![digit_char(9)]);
        "9"
    }
}

/// `n` written in base ten, most significant digit first.
pub fn dec_string(n: u64) -> (r: String)
    ensures
        r@ == dec_chars(n as nat),
    decreases n,
{
    if n < 10 {
        String::from_str(digit_str(n))
    } else {
        let mut r = dec_string(n / 10);
        r.append(digit_str(n % 10));
        assert(r@ =~= dec_chars(n as nat));
        r
    }
}

} // verus!
