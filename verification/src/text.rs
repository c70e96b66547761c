//! Numbers as text.

use vstd::prelude::*;
use vstd::string::StringExecFns;

verus! {

/// The character of a single decimal digit.
pub open spec fn digit(d: nat) -> char
    recommends
        d < 10,
{
    if d == 0 {
        '0'
    } else if d == 1 {
        '1'
    } else if d == 2 {
        '2'
    } else if d == 3 {
        '3'
    } else if d == 4 {
        '4'
    } else if d == 5 {
        '5'
    } else if d == 6 {
        '6'
    } else if d == 7 {
        '7'
    } else if d == 8 {
        '8'
    } else {
        '9'
    }
}

/// The decimal digits of `n`, most significant first, without leading zeros.
pub open spec fn decimal(n: nat) -> Seq<char>
    decreases n,
{
    if n < 10 {
        seq![digit(n)]
    } else {
        decimal(n / 10).push(digit(n % 10))
    }
}

/// What follows each ratio in the text of a block: a space and a line break.
pub open spec fn ratio_end() -> Seq<char> {
    seq![' ', '\n']
}

/// The text of a list of ratios: each ratio in decimal, in the order given,
/// followed by a space and a line break.
pub open spec fn ratio_lines(ratios: Seq<u64>) -> Seq<char>
    decreases ratios.len(),
{
    if ratios.len() == 0 {
        Seq::empty()
    } else {
        ratio_lines(ratios.drop_last()) + decimal(ratios.last() as nat) + ratio_end()
    }
}

fn digit_str(d: u64) -> (s: &'static str)
    requires
        d < 10,
    ensures
        s@ == seq![digit(d as nat)],
{
    proof {
        reveal_strlit("0");
        reveal_strlit("1");
        reveal_strlit("2");
        reveal_strlit("3");
        reveal_strlit("4");
        reveal_strlit("5");
        reveal_strlit("6");
        reveal_strlit("7");
        reveal_strlit("8");
        reveal_strlit("9");
    }
    let s = if d == 0 {
        "0"
    } else if d == 1 {
        "1"
    } else if d == 2 {
        "2"
    } else if d == 3 {
        "3"
    } else if d == 4 {
        "4"
    } else if d == 5 {
        "5"
    } else if d == 6 {
        "6"
    } else if d == 7 {
        "7"
    } else if d == 8 {
        "8"
    } else {
        "9"
    };
    assert(s@ =~= seq![digit(d as nat)]);
    s
}

/// Writes the decimal digits of `n` at the end of `out`.
pub fn push_decimal(out: &mut String, n: u64)
    ensures
        final(out)@ == old(out)@ + decimal(n as nat),
    decreases n,
{
    if n < 10 {
        out.append(digit_str(n));
    } else {
        push_decimal(out, n / 10);
        out.append(digit_str(n % 10));
        assert(out@ =~= old(out)@ + decimal(n as nat));
    }
}

/// Writes the text of `ratios` at the end of `out`.
pub fn push_ratio_lines(out: &mut String, ratios: &Vec<u64>)
    ensures
        final(out)@ == old(out)@ + ratio_lines(ratios@),
{
    let mut i: usize = 0;
    assert(ratios@.take(0) =~= Seq::empty());
    while i < ratios.len()
        invariant
            i <= ratios.len(),
            out@ == old(out)@ + ratio_lines(ratios@.take(i as int)),
        decreases ratios.len() - i,
    {
        push_decimal(out, ratios[i]);
        proof {
            reveal_strlit(" \n");
        }
        out.append(" \n");
        proof {
            let next = ratios@.take(i + 1);
            assert(next.drop_last() =~= ratios@.take(i as int));
            assert(next.last() == ratios[i as int]);
            assert(" \n"@ =~= ratio_end());
            assert(out@ =~= old(out)@ + ratio_lines(next));
        }
        i = i + 1;
    }
    assert(ratios@.take(i as int) =~= ratios@);
}

} // verus!
