use vstd::prelude::*;

verus! {

/// The decimal digit character for a value below ten.
pub open spec fn dec_digit(d: nat) -> char {
    if d == 0 {
        '0'
    } else if d == 1 {
        '1'
    } else if d == 2 {
        '2'
    } else if d == 3 {
        '3'
    } else if d == 4 {
        '4'
    } else if d == 5 {
        '5'
    } else if d == 6 {
        '6'
    } else if d == 7 {
        '7'
    } else if d == 8 {
        '8'
    } else {
        '9'
    }
}

/// The ordinary decimal rendering of a number: most significant digit
/// first, no leading zeroes, a single "0" for zero.
pub open spec fn dec_rep(n: nat) -> Seq<char>
    decreases n,
{
    if n < 10 {
        seq![dec_digit(n)]
    } else {
        dec_rep(n / 10) + seq![dec_digit(n % 10)]
    }
}

fn digit_str(d: u64) -> (r: &'static str)
    requires
        d < 10,
    ensures
        r@ == seq![dec_digit(d as nat)],
{
    proof {
        reveal_strlit("0");
        reveal_strlit("1");
        reveal_strlit("2");
        reveal_strlit("3");
        reveal_strlit("4");
        reveal_strlit("5");
        reveal_strlit("6");
        reveal_strlit("7");
        reveal_strlit("8");
        reveal_strlit("9");
    }
    match d {
        0 => "0",
        1 => "1",
        2 => "2",
        3 => "3",
        4 => "4",
        5 => "5",
        6 => "6",
        7 => "7",
        8 => "8",
        _ => "9",
    }
}

/// Renders a number in decimal, exactly as its specification `dec_rep`
/// lays the digits out.
pub fn u64_to_dec(n: u64) -> (r: String)
    ensures
        r@ == dec_rep(n as nat),
    decreases n,
{
    if n < 10 {
        String::from_str(digit_str(n))
    } else {
        let mut s = u64_to_dec(n / 10);
        s.append(digit_str(n % 10));
        s
    }
}

/// No decimal rendering contains a separator character: neither the dash
/// nor the slash that the job-directory naming scheme uses.
pub proof fn lemma_dec_rep_digits_only(n: nat)
    ensures
        forall|i: int|
            0 <= i < dec_rep(n).len() ==> (#[trigger] dec_rep(n)[i]) != '-' && dec_rep(n)[i] != '/',
    decreases n,
{
    if n >= 10 {
        lemma_dec_rep_digits_only(n / 10);
        assert forall|i: int| 0 <= i < dec_rep(n).len() implies (#[trigger] dec_rep(n)[i]) != '-'
            && dec_rep(n)[i] != '/' by {
            if i < dec_rep(n / 10).len() {
                assert(dec_rep(n)[i] == dec_rep(n / 10)[i]);
            }
        }
    }
}

proof fn lemma_dec_digit_injective(a: nat, b: nat)
    requires
        a < 10,
        b < 10,
        dec_digit(a) == dec_digit(b),
    ensures
        a == b,
{
}

/// Two different numbers never share a decimal rendering.
pub proof fn lemma_dec_rep_injective(a: nat, b: nat)
    requires
        dec_rep(a) == dec_rep(b),
    ensures
        a == b,
    decreases a,
{
    if a < 10 && b < 10 {
        assert(dec_rep(a)[0] == dec_digit(a));
        assert(dec_rep(b)[0] == dec_digit(b));
        lemma_dec_digit_injective(a, b);
    } else if a < 10 && b >= 10 {
        assert(dec_rep(b).len() == dec_rep(b / 10).len() + 1);
        assert(dec_rep(b / 10).len() >= 1) by {
            lemma_dec_rep_len_at_least_one(b / 10);
        }
        assert(dec_rep(a).len() == 1);
    } else if a >= 10 && b < 10 {
        assert(dec_rep(a).len() == dec_rep(a / 10).len() + 1);
        assert(dec_rep(a / 10).len() >= 1) by {
            lemma_dec_rep_len_at_least_one(a / 10);
        }
        assert(dec_rep(b).len() == 1);
    } else {
        let la = dec_rep(a / 10).len() as int;
        let lb = dec_rep(b / 10).len() as int;
        assert(dec_rep(a).len() == la + 1);
        assert(dec_rep(b).len() == lb + 1);
        assert(la == lb);
        assert(dec_rep(a).last() == dec_digit(a % 10));
        assert(dec_rep(b).last() == dec_digit(b % 10));
        lemma_dec_digit_injective(a % 10, b % 10);
        assert(dec_rep(a / 10) =~= dec_rep(b / 10)) by {
            assert forall|i: int| 0 <= i < la implies #[trigger] dec_rep(a / 10)[i] == dec_rep(
                b / 10,
            )[i] by {
                assert(dec_rep(a)[i] == dec_rep(a / 10)[i]);
                assert(dec_rep(b)[i] == dec_rep(b / 10)[i]);
            }
        }
        lemma_dec_rep_injective(a / 10, b / 10);
    }
}

proof fn lemma_dec_rep_len_at_least_one(n: nat)
    ensures
        dec_rep(n).len() >= 1,
    decreases n,
{
    if n >= 10 {
        lemma_dec_rep_len_at_least_one(n / 10);
    }
}

} // verus!
