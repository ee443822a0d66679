//! Decimal rendering of counters, used for session ids.

use vstd::prelude::*;
use vstd::string::StringExecFns;

verus! {

pub open spec fn dec_digit(d: nat) -> char {
    if d == 0 {
        '0'
    } else if d == 1 {
        '1'
    } else if d == 2 {
        '2'
    } else if d == 3 {
        '3'
    } else if d == 4 {
        '4'
    } else if d == 5 {
        '5'
    } else if d == 6 {
        '6'
    } else if d == 7 {
        '7'
    } else if d == 8 {
        '8'
    } else {
        '9'
    }
}

/// The decimal representation of `n`, most significant digit first, with no
/// leading zeros (except for `n == 0` itself).
pub open spec fn dec_rep(n: nat) -> Seq<char>
    decreases n,
{
    if n < 10 {
        seq![dec_digit(n)]
    } else {
        dec_rep(n / 10).push(dec_digit(n % 10))
    }
}

pub proof fn lemma_dec_digit_injective(a: nat, b: nat)
    requires
        a < 10,
        b < 10,
        a != b,
    ensures
        dec_digit(a) != dec_digit(b),
{
}

/// Distinct numbers have distinct decimal representations.
pub proof fn lemma_dec_rep_injective(a: nat, b: nat)
    requires
        a != b,
    ensures
        dec_rep(a) != dec_rep(b),
    decreases a + b,
{
    if a < 10 && b < 10 {
        lemma_dec_digit_injective(a, b);
        assert(dec_rep(a)[0] != dec_rep(b)[0]);
    } else if a < 10 {
        assert(dec_rep(b).len() == dec_rep(b / 10).len() + 1);
        assert(dec_rep(b / 10).len() >= 1) by {
            lemma_dec_rep_nonempty(b / 10);
        }
    } else if b < 10 {
        assert(dec_rep(a).len() == dec_rep(a / 10).len() + 1);
        assert(dec_rep(a / 10).len() >= 1) by {
            lemma_dec_rep_nonempty(a / 10);
        }
    } else {
        let la = dec_rep(a / 10).len() as int;
        let lb = dec_rep(b / 10).len() as int;
        if a % 10 != b % 10 {
            lemma_dec_digit_injective(a % 10, b % 10);
            if la == lb {
                assert(dec_rep(a)[la] != dec_rep(b)[lb]);
            } else {
                assert(dec_rep(a).len() != dec_rep(b).len());
            }
        } else {
            lemma_dec_rep_injective(a / 10, b / 10);
            if la == lb {
                let pa = dec_rep(a / 10);
                let pb = dec_rep(b / 10);
                assert(pa != pb);
                assert(exists|i: int| 0 <= i < la && pa[i] != pb[i]) by {
                    if forall|i: int| 0 <= i < la ==> pa[i] == #[trigger] pb[i] {
                        assert(pa =~= pb);
                    }
                }
                let i = choose|i: int| 0 <= i < la && pa[i] != pb[i];
                assert(dec_rep(a)[i] != dec_rep(b)[i]);
            } else {
                assert(dec_rep(a).len() != dec_rep(b).len());
            }
        }
    }
}

pub proof fn lemma_dec_rep_nonempty(n: nat)
    ensures
        dec_rep(n).len() >= 1,
    decreases n,
{
    if n >= 10 {
        lemma_dec_rep_nonempty(n / 10);
    }
}

/// A single decimal digit as a string slice.
fn digit_str(d: u32) -> (r: &'static str)
    requires
        d < 10,
    ensures
        r@ =~= seq![dec_digit(d as nat)],
{
    if d == 0 {
        proof { reveal_strlit("0"); }
        "0"
    } else if d == 1 {
        proof { reveal_strlit("1"); }
        "1"
    } else if d == 2 {
        proof { reveal_strlit("2"); }
        "2"
    } else if d == 3 {
        proof { reveal_strlit("3"); }
        "3"
    } else if d == 4 {
        proof { reveal_strlit("4"); }
        "4"
    } else if d == 5 {
        proof { reveal_strlit("5"); }
        "5"
    } else if d == 6 {
        proof { reveal_strlit("6"); }
        "6"
    } else if d == 7 {
        proof { reveal_strlit("7"); }
        "7"
    } else if d == 8 {
        proof { reveal_strlit("8"); }
        "8"
    } else {
        proof { reveal_strlit("9"); }
        "9"
    }
}

/// Renders `n` in decimal.
pub fn u32_to_string(n: u32) -> (r: String)
    ensures
        r@ == dec_rep(n as nat),
    decreases n,
{
    if n < 10 {
        let r = digit_str(n).to_owned();
        proof {
            assert(r@ =~= dec_rep(n as nat));
        }
        r
    } else {
        let mut s = u32_to_string(n / 10);
        s.append(digit_str(n % 10));
        proof {
            assert(s@ =~= dec_rep(n as nat));
        }
        s
    }
}

} // verus!
