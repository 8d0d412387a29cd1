use vstd::prelude::*;
use vstd::string::*;

verus! {

/// The English word for a decimal digit.
pub open spec fn digit_word(d: nat) -> Seq<char> {
    if d == 0 {
        seq!['z', 'e', 'r', 'o']
    } else if d == 1 {
        seq!['o', 'n', 'e']
    } else if d == 2 {
        seq!['t', 'w', 'o']
    } else if d == 3 {
        seq!['t', 'h', 'r', 'e', 'e']
    } else if d == 4 {
        seq!['f', 'o', 'u', 'r']
    } else if d == 5 {
        seq!['f', 'i', 'v', 'e']
    } else if d == 6 {
        seq!['s', 'i', 'x']
    } else if d == 7 {
        seq!['s', 'e', 'v', 'e', 'n']
    } else if d == 8 {
        seq!['e', 'i', 'g', 'h', 't']
    } else {
        seq!['n', 'i', 'n', 'e']
    }
}

/// A number spelt digit by digit, most significant first, each word
/// preceded by a space: 12 is " one two".
pub open spec fn wordy(n: nat) -> Seq<char>
    decreases n,
{
    if n < 10 {
        seq![' '] + digit_word(n)
    } else {
        wordy(n / 10) + seq![' '] + digit_word(n % 10)
    }
}

fn digit_str(d: usize) -> (r: &'static str)
    requires
        d < 10,
    ensures
        r@ == digit_word(d as nat),
{
    if d == 0 {
        proof { reveal_strlit("zero"); }
        "zero"
    } else if d == 1 {
        proof { reveal_strlit("one"); }
        "one"
    } else if d == 2 {
        proof { reveal_strlit("two"); }
        "two"
    } else if d == 3 {
        proof { reveal_strlit("three"); }
        "three"
    } else if d == 4 {
        proof { reveal_strlit("four"); }
        "four"
    } else if d == 5 {
        proof { reveal_strlit("five"); }
        "five"
    } else if d == 6 {
        proof { reveal_strlit("six"); }
        "six"
    } else if d == 7 {
        proof { reveal_strlit("seven"); }
        "seven"
    } else if d == 8 {
        proof { reveal_strlit("eight"); }
        "eight"
    } else {
        proof { reveal_strlit("nine"); }
        "nine"
    }
}

/// Spells out `num` digit by digit, as in " one two" for 12.
pub fn wordy_num(num: usize) -> (r: String)
    ensures
        r@ == wordy(num as nat),
    decreases num,
{
    let mut out = if num < 10 {
        String::new()
    } else {
        wordy_num(num / 10)
    };
    proof { reveal_strlit(" "); }
    out.append(" ");
    out.append(digit_str(num % 10));
    proof {
        if num < 10 {
            assert(out@ =~= seq![' '] + digit_word(num as nat));
        }
    }
    out
}

} // verus!
