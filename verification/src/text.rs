//! Numbers as text, for the messages of errors.

use vstd::prelude::*;
use vstd::string::StringExecFns;

verus! {

/// The character of the decimal digit `d`.
pub open spec fn digit(d: nat) -> char {
    if d == 0 {
        '0'
    } else if d == 1 {
        '1'
    } else if d == 2 {
        '2'
    } else if d == 3 {
        '3'
    } else if d == 4 {
        '4'
    } else if d == 5 {
        '5'
    } else if d == 6 {
        '6'
    } else if d == 7 {
        '7'
    } else if d == 8 {
        '8'
    } else {
        '9'
    }
}

/// The decimal numeral of `n`, without leading zeros.
pub open spec fn decimal(n: nat) -> Seq<char>
    decreases n,
{
    if n < 10 {
        seq![digit(n)]
    } else {
        decimal(n / 10).push(digit(n % 10))
    }
}

/// The digits `digits`, which stand lowest first, as characters with the
/// highest first.
pub open spec fn highest_first(digits: Seq<u32>) -> Seq<char> {
    Seq::new(digits.len(), |i: int| digit(digits[digits.len() - 1 - i] as nat))
}

/// The one-character text of the decimal digit `d`.
fn digit_text(d: u32) -> (text: &'static str)
    requires
        d < 10,
    ensures
        text@ == seq![digit(d as nat)],
{
    proof {
        reveal_strlit("0");
        reveal_strlit("1");
        reveal_strlit("2");
        reveal_strlit("3");
        reveal_strlit("4");
        reveal_strlit("5");
        reveal_strlit("6");
        reveal_strlit("7");
        reveal_strlit("8");
        reveal_strlit("9");
    }
    let text = if d == 0 {
        "0"
    } else if d == 1 {
        "1"
    } else if d == 2 {
        "2"
    } else if d == 3 {
        "3"
    } else if d == 4 {
        "4"
    } else if d == 5 {
        "5"
    } else if d == 6 {
        "6"
    } else if d == 7 {
        "7"
    } else if d == 8 {
        "8"
    } else {
        "9"
    };
    assert(text@ =~= seq![digit(d as nat)]);
    text
}

/// Appends the decimal numeral of `n` to `text`.
pub fn append_decimal(text: &mut String, n: u32)
    ensures
        final(text)@ == old(text)@ + decimal(n as nat),
{
    let mut digits: Vec<u32> = Vec::new();
    digits.push(n % 10);
    let mut rest: u32 = n / 10;
    assert(decimal(n as nat) =~= (if rest == 0 {
        Seq::<char>::empty()
    } else {
        decimal(rest as nat)
    }) + highest_first(digits@));
    while rest > 0
        invariant
            digits@.len() > 0,
            forall|i: int| 0 <= i < digits@.len() ==> digits@[i] < 10,
            decimal(n as nat) == (if rest == 0 {
                Seq::<char>::empty()
            } else {
                decimal(rest as nat)
            }) + highest_first(digits@),
        decreases rest,
    {
        let ghost before = digits@;
        let ghost front = if rest / 10 == 0 {
            Seq::<char>::empty()
        } else {
            decimal((rest / 10) as nat)
        };
        assert(decimal(rest as nat) =~= front.push(digit((rest % 10) as nat)));
        digits.push(rest % 10);
        assert(highest_first(digits@) =~= seq![digit((rest % 10) as nat)] + highest_first(before));
        assert(front.push(digit((rest % 10) as nat)) + highest_first(before) =~= front
            + highest_first(digits@));
        rest = rest / 10;
    }
    let mut i: usize = digits.len();
    while i > 0
        invariant
            i <= digits@.len(),
            forall|k: int| 0 <= k < digits@.len() ==> digits@[k] < 10,
            text@ == old(text)@ + highest_first(digits@).take(digits@.len() - i),
        decreases i,
    {
        i = i - 1;
        text.append(digit_text(digits[i]));
        assert(text@ =~= old(text)@ + highest_first(digits@).take(digits@.len() - i));
    }
    assert(highest_first(digits@).take(digits@.len() as int) =~= highest_first(digits@));
}

} // verus!
