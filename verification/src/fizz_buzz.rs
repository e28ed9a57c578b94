use vstd::prelude::*;
use vstd::string::StringExecFns;

verus! {

/// The decimal digit character for `d` (meaningful for `d < 10`).
pub open spec fn decimal_digit(d: nat) -> char {
    ((48 + d) as u8) as char
}

/// The decimal spelling of `n`, most significant digit first, with no
/// leading zeros (and `0` spelled as one digit).
pub open spec fn spec_decimal(n: nat) -> Seq<char>
    decreases n,
{
    if n < 10 {
        seq![decimal_digit(n)]
    } else {
        spec_decimal(n / 10) + seq![decimal_digit(n % 10)]
    }
}

/// The right call for a turn: multiples of both three and five get
/// "fizz buzz", multiples of five alone "buzz", multiples of three
/// alone "fizz", and anything else its decimal spelling.
pub open spec fn spec_answer(turn: nat) -> Seq<char> {
    if turn % 15 == 0 {
        "fizz buzz"@
    } else if turn % 5 == 0 {
        "buzz"@
    } else if turn % 3 == 0 {
        "fizz"@
    } else {
        spec_decimal(turn)
    }
}

/// A run of digit bytes read back most recently pushed first.
pub open spec fn digits_reversed(digits: Seq<u8>) -> Seq<char> {
    Seq::new(digits.len(), |i: int| decimal_digit(digits[digits.len() - 1 - i] as nat))
}

/// The one-character string slice for digit `d`.
fn digit_str(d: u8) -> (r: &'static str)
    requires
        d < 10,
    ensures
        r@ =~= seq![decimal_digit(d as nat)],
{
    proof {
        reveal_strlit("0");
        reveal_strlit("1");
        reveal_strlit("2");
        reveal_strlit("3");
        reveal_strlit("4");
        reveal_strlit("5");
        reveal_strlit("6");
        reveal_strlit("7");
        reveal_strlit("8");
        reveal_strlit("9");
    }
    match d {
        0 => "0",
        1 => "1",
        2 => "2",
        3 => "3",
        4 => "4",
        5 => "5",
        6 => "6",
        7 => "7",
        8 => "8",
        _ => "9",
    }
}

/// The decimal spelling of `n` as an owned string.
pub fn decimal_string(n: usize) -> (r: String)
    ensures
        r@ == spec_decimal(n as nat),
{
    let mut digits: Vec<u8> = Vec::new();
    let mut m: usize = n;
    loop
        invariant_except_break
            spec_decimal(n as nat) == (if digits@.len() == 0 {
                spec_decimal(m as nat)
            } else {
                spec_decimal(m as nat) + digits_reversed(digits@)
            }),
            forall|i: int| 0 <= i < digits@.len() ==> #[trigger] digits@[i] < 10,
        ensures
            digits@.len() > 0,
            forall|i: int| 0 <= i < digits@.len() ==> #[trigger] digits@[i] < 10,
            spec_decimal(n as nat) == digits_reversed(digits@),
        decreases m,
    {
        let ghost digits0 = digits@;
        let d = (m % 10) as u8;
        digits.push(d);
        proof {
            if digits0.len() == 0 {
                assert(digits_reversed(digits@) =~= seq![decimal_digit(d as nat)]);
            } else {
                assert(digits_reversed(digits@) =~= seq![decimal_digit(d as nat)]
                    + digits_reversed(digits0));
            }
        }
        if m < 10 {
            proof {
                assert(spec_decimal(m as nat) =~= seq![decimal_digit(d as nat)]);
            }
            break;
        }
        m = m / 10;
    }
    let mut r = String::new();
    let mut i: usize = digits.len();
    while i > 0
        invariant
            i <= digits@.len(),
            forall|j: int| 0 <= j < digits@.len() ==> #[trigger] digits@[j] < 10,
            r@ =~= digits_reversed(digits@).take(digits@.len() - i),
        decreases i,
    {
        i = i - 1;
        let piece = digit_str(digits[i]);
        r.append(piece);
        proof {
            assert(r@ =~= digits_reversed(digits@).take(digits@.len() - i));
        }
    }
    proof {
        assert(digits_reversed(digits@).take(digits@.len() as int) =~= digits_reversed(digits@));
    }
    r
}

/// The right call for the given turn, as an owned string.
pub fn answer(turn: usize) -> (r: String)
    ensures
        r@ == spec_answer(turn as nat),
{
    if turn % 15 == 0 {
        String::from_str("fizz buzz")
    } else if turn % 5 == 0 {
        String::from_str("buzz")
    } else if turn % 3 == 0 {
        String::from_str("fizz")
    } else {
        decimal_string(turn)
    }
}

/// The same call decided by a `match` over the turn instead of an
/// `if` / `else` chain.
pub fn answer_alternate(turn: usize) -> (r: String)
    ensures
        r@ == spec_answer(turn as nat),
{
    match turn {
        _ if turn % 15 == 0 => String::from_str("fizz buzz"),
        _ if turn % 5 == 0 => String::from_str("buzz"),
        _ if turn % 3 == 0 => String::from_str("fizz"),
        _ => decimal_string(turn),
    }
}

} // verus!
