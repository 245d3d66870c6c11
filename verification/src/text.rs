//! Decimal rendering of integers, the numeric part of the canonical
//! block encoding that is fed to the digest.

use vstd::prelude::*;
use vstd::string::StringExecFns;

verus! {

/// The decimal digit character for a value below ten.
pub open spec fn dec_digit(d: nat) -> char {
    if d == 0 {
        '0'
    } else if d == 1 {
        '1'
    } else if d == 2 {
        '2'
    } else if d == 3 {
        '3'
    } else if d == 4 {
        '4'
    } else if d == 5 {
        '5'
    } else if d == 6 {
        '6'
    } else if d == 7 {
        '7'
    } else if d == 8 {
        '8'
    } else {
        '9'
    }
}

/// The decimal numeral of a natural number, most significant digit first,
/// with no leading zeros (a single `'0'` for zero itself).
pub open spec fn dec_of(n: nat) -> Seq<char>
    decreases n,
{
    if n < 10 {
        seq![dec_digit(n)]
    } else {
        dec_of(n / 10) + seq![dec_digit(n % 10)]
    }
}

/// The decimal numeral of an integer: the magnitude's numeral, preceded by
/// a `'-'` sign when the integer is negative.
pub open spec fn dec_of_int(i: int) -> Seq<char> {
    if i >= 0 {
        dec_of(i as nat)
    } else {
        seq!['-'] + dec_of((-i) as nat)
    }
}

proof fn lemma_dec_of_len(n: nat)
    ensures
        dec_of(n).len() >= 1,
        n >= 10 ==> dec_of(n).len() >= 2,
    decreases n,
{
    if n >= 10 {
        lemma_dec_of_len(n / 10);
    }
}

proof fn lemma_dec_of_first_char(n: nat)
    ensures
        dec_of(n).len() >= 1,
        dec_of(n)[0] != '-',
    decreases n,
{
    if n >= 10 {
        lemma_dec_of_first_char(n / 10);
        assert(dec_of(n)[0] == dec_of(n / 10)[0]);
    }
}

proof fn lemma_dec_of_injective(a: nat, b: nat)
    requires
        dec_of(a) == dec_of(b),
    ensures
        a == b,
    decreases a,
{
    lemma_dec_of_len(a);
    lemma_dec_of_len(b);
    if a < 10 && b < 10 {
        assert(dec_of(a)[0] == dec_digit(a));
        assert(dec_of(b)[0] == dec_digit(b));
    } else if a < 10 && b >= 10 {
        assert(dec_of(a).len() == 1);
    } else if a >= 10 && b < 10 {
        assert(dec_of(b).len() == 1);
    } else {
        let s1 = dec_of(a / 10);
        let s2 = dec_of(b / 10);
        assert(dec_of(a) == s1 + seq![dec_digit(a % 10)]);
        assert(dec_of(b) == s2 + seq![dec_digit(b % 10)]);
        assert(s1.len() == s2.len());
        assert(dec_of(a).last() == dec_digit(a % 10));
        assert(dec_of(b).last() == dec_digit(b % 10));
        assert(a % 10 == b % 10);
        assert forall|i: int| 0 <= i < s1.len() implies s1[i] == s2[i] by {
            assert(s1[i] == dec_of(a)[i]);
            assert(s2[i] == dec_of(b)[i]);
        }
        assert(s1 =~= s2);
        lemma_dec_of_injective(a / 10, b / 10);
    }
}

pub(crate) proof fn lemma_dec_of_int_injective(a: int, b: int)
    requires
        dec_of_int(a) == dec_of_int(b),
    ensures
        a == b,
{
    if a >= 0 && b >= 0 {
        lemma_dec_of_injective(a as nat, b as nat);
    } else if a < 0 && b < 0 {
        let s1 = dec_of((-a) as nat);
        let s2 = dec_of((-b) as nat);
        assert(dec_of_int(a) == seq!['-'] + s1);
        assert(dec_of_int(b) == seq!['-'] + s2);
        assert(s1.len() == s2.len());
        assert forall|i: int| 0 <= i < s1.len() implies s1[i] == s2[i] by {
            assert(s1[i] == dec_of_int(a)[i + 1]);
            assert(s2[i] == dec_of_int(b)[i + 1]);
        }
        assert(s1 =~= s2);
        lemma_dec_of_injective((-a) as nat, (-b) as nat);
    } else if a >= 0 {
        lemma_dec_of_first_char(a as nat);
        assert(dec_of_int(b)[0] == '-');
    } else {
        lemma_dec_of_first_char(b as nat);
        assert(dec_of_int(a)[0] == '-');
    }
}

pub(crate) fn dec_digit_str(d: u64) -> (r: &'static str)
    requires
        d < 10,
    ensures
        r@ == seq![dec_digit(d as nat)],
{
    if d == 0 {
        proof {
            reveal_strlit("0");
            assert("0"@ =~= seq![dec_digit(d as nat)]);
        }
        "0"
    } else if d == 1 {
        proof {
            reveal_strlit("1");
            assert("1"@ =~= seq![dec_digit(d as nat)]);
        }
        "1"
    } else if d == 2 {
        proof {
            reveal_strlit("2");
            assert("2"@ =~= seq![dec_digit(d as nat)]);
        }
        "2"
    } else if d == 3 {
        proof {
            reveal_strlit("3");
            assert("3"@ =~= seq![dec_digit(d as nat)]);
        }
        "3"
    } else if d == 4 {
        proof {
            reveal_strlit("4");
            assert("4"@ =~= seq![dec_digit(d as nat)]);
        }
        "4"
    } else if d == 5 {
        proof {
            reveal_strlit("5");
            assert("5"@ =~= seq![dec_digit(d as nat)]);
        }
        "5"
    } else if d == 6 {
        proof {
            reveal_strlit("6");
            assert("6"@ =~= seq![dec_digit(d as nat)]);
        }
        "6"
    } else if d == 7 {
        proof {
            reveal_strlit("7");
            assert("7"@ =~= seq![dec_digit(d as nat)]);
        }
        "7"
    } else if d == 8 {
        proof {
            reveal_strlit("8");
            assert("8"@ =~= seq![dec_digit(d as nat)]);
        }
        "8"
    } else {
        proof {
            reveal_strlit("9");
            assert("9"@ =~= seq![dec_digit(d as nat)]);
        }
        "9"
    }
}

/// Renders an unsigned integer as its decimal numeral.
pub fn u64_to_dec(n: u64) -> (s: String)
    ensures
        s@ == dec_of(n as nat),
    decreases n,
{
    if n < 10 {
        String::from_str(dec_digit_str(n))
    } else {
        let mut s = u64_to_dec(n / 10);
        s.append(dec_digit_str(n % 10));
        proof {
            assert(s@ =~= dec_of(n as nat));
        }
        s
    }
}

/// Renders a signed integer as its decimal numeral.
pub fn i64_to_dec(v: i64) -> (s: String)
    ensures
        s@ == dec_of_int(v as int),
{
    if v >= 0 {
        u64_to_dec(v as u64)
    } else {
        let m: u64 = (-(v as i128)) as u64;
        assert(m as int == -(v as int));
        let mut s = String::from_str("-");
        let digits = u64_to_dec(m);
        s.append(digits.as_str());
        proof {
            reveal_strlit("-");
            assert("-"@ =~= seq!['-']);
            assert(s@ =~= dec_of_int(v as int));
        }
        s
    }
}

} // verus!
