//! The block digest: SHA-256 behind a trusted wrapper, a verified
//! hexadecimal rendering of its bytes, and the leading-zero difficulty
//! predicate that mining must satisfy.

use sha2::Digest;
use vstd::prelude::*;
use vstd::string::StrSliceExecFns;
use vstd::string::StringExecFns;
use crate::text::dec_digit;
use crate::text::dec_digit_str;

verus! {

/// The lowercase hexadecimal digit character for a value below sixteen.
pub open spec fn hex_digit(d: nat) -> char {
    if d < 10 {
        dec_digit(d)
    } else if d == 10 {
        'a'
    } else if d == 11 {
        'b'
    } else if d == 12 {
        'c'
    } else if d == 13 {
        'd'
    } else if d == 14 {
        'e'
    } else {
        'f'
    }
}

/// The two hexadecimal digits of one byte, high nibble first.
pub open spec fn hex_of_byte(b: u8) -> Seq<char> {
    seq![hex_digit((b / 16) as nat), hex_digit((b % 16) as nat)]
}

/// The lowercase hexadecimal rendering of a byte sequence, two digits per byte.
pub open spec fn hex_of(s: Seq<u8>) -> Seq<char>
    decreases s.len(),
{
    if s.len() == 0 {
        Seq::empty()
    } else {
        hex_of_byte(s[0]) + hex_of(s.drop_first())
    }
}

pub(crate) proof fn lemma_hex_of_len(s: Seq<u8>)
    ensures
        hex_of(s).len() == 2 * s.len(),
    decreases s.len(),
{
    if s.len() > 0 {
        lemma_hex_of_len(s.drop_first());
    }
}

proof fn lemma_hex_of_snoc(s: Seq<u8>, x: u8)
    ensures
        hex_of(s.push(x)) == hex_of(s) + hex_of_byte(x),
    decreases s.len(),
{
    if s.len() == 0 {
        assert(s.push(x).drop_first() =~= s);
        assert(hex_of(s.push(x)) =~= hex_of(s) + hex_of_byte(x));
    } else {
        assert(s.push(x).drop_first() =~= s.drop_first().push(x));
        lemma_hex_of_snoc(s.drop_first(), x);
        assert(hex_of(s.push(x)) =~= hex_of(s) + hex_of_byte(x));
    }
}

/// What SHA-256 returns on the UTF-8 bytes of a string: a fixed function of
/// the characters alone, not written out here.
pub uninterp spec fn sha256_of(s: Seq<char>) -> Seq<u8>;

/// Relies on sha2::Sha256::digest: the 32-byte SHA-256 digest of the input's
/// UTF-8 bytes, a function of the input alone.
#[verifier::external_body]
pub(crate) fn sha256_digest(data: &str) -> (r: Vec<u8>)
    ensures
        r@ == sha256_of(data@),
        r@.len() == 32,
{
    sha2::Sha256::digest(data.as_bytes()).to_vec()
}

fn hex_digit_str(d: u8) -> (r: &'static str)
    requires
        d < 16,
    ensures
        r@ == seq![hex_digit(d as nat)],
{
    if d < 10 {
        dec_digit_str(d as u64)
    } else if d == 10 {
        proof {
            reveal_strlit("a");
            assert("a"@ =~= seq![hex_digit(d as nat)]);
        }
        "a"
    } else if d == 11 {
        proof {
            reveal_strlit("b");
            assert("b"@ =~= seq![hex_digit(d as nat)]);
        }
        "b"
    } else if d == 12 {
        proof {
            reveal_strlit("c");
            assert("c"@ =~= seq![hex_digit(d as nat)]);
        }
        "c"
    } else if d == 13 {
        proof {
            reveal_strlit("d");
            assert("d"@ =~= seq![hex_digit(d as nat)]);
        }
        "d"
    } else if d == 14 {
        proof {
            reveal_strlit("e");
            assert("e"@ =~= seq![hex_digit(d as nat)]);
        }
        "e"
    } else {
        proof {
            reveal_strlit("f");
            assert("f"@ =~= seq![hex_digit(d as nat)]);
        }
        "f"
    }
}

/// Renders a byte sequence as lowercase hexadecimal, two digits per byte.
pub fn bytes_to_hex(v: &Vec<u8>) -> (s: String)
    ensures
        s@ == hex_of(v@),
{
    let mut s = String::new();
    let mut i: usize = 0;
    while i < v.len()
        invariant
            i <= v@.len(),
            s@ == hex_of(v@.subrange(0, i as int)),
        decreases v@.len() - i,
    {
        let b: u8 = v[i];
        s.append(hex_digit_str(b / 16));
        s.append(hex_digit_str(b % 16));
        proof {
            lemma_hex_of_snoc(v@.subrange(0, i as int), v@[i as int]);
            assert(v@.subrange(0, i as int).push(v@[i as int]) =~= v@.subrange(
                0,
                i as int + 1,
            ));
            assert(s@ =~= hex_of(v@.subrange(0, i as int + 1)));
        }
        i = i + 1;
    }
    proof {
        assert(v@.subrange(0, v@.len() as int) =~= v@);
    }
    s
}

/// The number of leading `'0'` characters of a sequence.
pub open spec fn leading_zeros(s: Seq<char>) -> nat
    decreases s.len(),
{
    if s.len() == 0 || s[0] != '0' {
        0
    } else {
        leading_zeros(s.drop_first()) + 1
    }
}

proof fn lemma_leading_zeros_bound(s: Seq<char>)
    ensures
        leading_zeros(s) <= s.len(),
    decreases s.len(),
{
    if s.len() > 0 && s[0] == '0' {
        lemma_leading_zeros_bound(s.drop_first());
    }
}

proof fn lemma_leading_zeros_ge(s: Seq<char>, d: nat)
    ensures
        (leading_zeros(s) >= d) <==> (d <= s.len() && forall|j: int| 0 <= j < d ==> s[j] == '0'),
    decreases d,
{
    lemma_leading_zeros_bound(s);
    if d > 0 {
        if s.len() == 0 || s[0] != '0' {
        } else if d > s.len() {
        } else {
            let sd = s.drop_first();
            lemma_leading_zeros_ge(sd, (d - 1) as nat);
            if leading_zeros(s) >= d {
                assert forall|j: int| 0 <= j < d implies s[j] == '0' by {
                    if j > 0 {
                        assert(sd[j - 1] == '0');
                    }
                }
            }
            if d <= s.len() && (forall|j: int| 0 <= j < d ==> s[j] == '0') {
                assert forall|j: int| 0 <= j < d - 1 implies sd[j] == '0' by {
                    assert(s[j + 1] == '0');
                }
            }
        }
    }
}

/// Decides whether a digest string has at least `difficulty` leading `'0'`
/// characters.
pub fn meets_difficulty(s: &str, difficulty: usize) -> (r: bool)
    ensures
        r == (leading_zeros(s@) >= difficulty),
{
    let n: usize = s.unicode_len();
    let mut i: usize = 0;
    proof {
        lemma_leading_zeros_ge(s@, difficulty as nat);
    }
    while i < difficulty
        invariant
            i <= difficulty,
            n == s@.len(),
            i <= s@.len(),
            forall|j: int| 0 <= j < i ==> s@[j] == '0',
            (leading_zeros(s@) >= difficulty) <==> (difficulty <= s@.len() && forall|j: int|
                0 <= j < difficulty ==> s@[j] == '0'),
        decreases difficulty - i,
    {
        if i >= n {
            return false;
        }
        let c = s.get_char(i);
        if c != '0' {
            return false;
        }
        i = i + 1;
    }
    true
}

} // verus!
