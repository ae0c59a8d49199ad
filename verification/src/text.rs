//! Text of the error messages.
use vstd::prelude::*;
use vstd::string::StringExecFns;

verus! {

/// The character of a decimal digit.
pub open spec fn digit(d: nat) -> char {
    (48 + d) as char
}

/// A number in decimal notation.
pub open spec fn decimal(n: nat) -> Seq<char>
    decreases n,
{
    if n < 10 {
        seq![digit(n)]
    } else {
        decimal(n / 10).push(digit(n % 10))
    }
}

/// A pair of numbers as `(a, b)`.
pub open spec fn pair(a: nat, b: nat) -> Seq<char> {
    "("@ + decimal(a) + ", "@ + decimal(b) + ")"@
}

fn digit_text(d: usize) -> (r: &'static str)
    requires
        d < 10,
    ensures
        r@ == seq![digit(d as nat)],
{
    proof {
        reveal_strlit("0");
        reveal_strlit("1");
        reveal_strlit("2");
        reveal_strlit("3");
        reveal_strlit("4");
        reveal_strlit("5");
        reveal_strlit("6");
        reveal_strlit("7");
        reveal_strlit("8");
        reveal_strlit("9");
    }
    let r = match d {
        0 => "0",
        1 => "1",
        2 => "2",
        3 => "3",
        4 => "4",
        5 => "5",
        6 => "6",
        7 => "7",
        8 => "8",
        _ => "9",
    };
    assert(r@ =~= seq![digit(d as nat)]);
    r
}

/// A number in decimal notation.
pub fn decimal_text(n: usize) -> (r: String)
    ensures
        r@ == decimal(n as nat),
    decreases n,
{
    if n < 10 {
        digit_text(n).to_owned()
    } else {
        let mut r = decimal_text(n / 10);
        r.append(digit_text(n % 10));
        assert(r@ =~= decimal(n as nat / 10).push(digit(n as nat % 10)));
        r
    }
}

/// A pair of numbers as `(a, b)`.
pub fn pair_text(a: usize, b: usize) -> (r: String)
    ensures
        r@ == pair(a as nat, b as nat),
{
    let mut r = "(".to_owned();
    r.append(decimal_text(a).as_str());
    r.append(", ");
    r.append(decimal_text(b).as_str());
    r.append(")");
    r
}

/// The number that decimal digits stand for.
pub open spec fn digits_value(digits: Seq<char>) -> int
    decreases digits.len(),
{
    if digits.len() == 0 {
        0
    } else {
        10 * digits_value(digits.drop_last()) + (digits.last() as int - '0' as int)
    }
}

/// Decimal notation stands for its number: it is made of the digits from `0` to `9`, does not begin
/// with a zero unless the number is zero, and reads as the number.
pub proof fn law_decimal_reads_back(n: nat)
    ensures
        decimal(n).len() > 0,
        forall|i: int| 0 <= i < decimal(n).len() ==> '0' <= #[trigger] decimal(n)[i] <= '9',
        n > 0 ==> decimal(n)[0] != '0',
        n == 0 ==> decimal(n).len() == 1,
        digits_value(decimal(n)) == n,
    decreases n,
{
    if n < 10 {
        assert(decimal(n).drop_last() =~= seq![]);
        assert(digits_value(seq![]) == 0);
    } else {
        law_decimal_reads_back(n / 10);
        assert(decimal(n).drop_last() =~= decimal(n / 10));
        assert(decimal(n)[0] == decimal(n / 10)[0]);
    }
}

/// A pair is written as its two numbers in decimal notation, in round brackets, with a comma and a
/// space between them.
pub proof fn law_pair_text(a: nat, b: nat)
    ensures
        ({
            let (text, x, y) = (pair(a, b), decimal(a), decimal(b));
            let middle = 1 + x.len() as int;
            &&& text.len() == x.len() + y.len() + 4
            &&& text[0] == '('
            &&& text.subrange(1, middle) == x
            &&& text[middle] == ',' && text[middle + 1] == ' '
            &&& text.subrange(middle + 2, middle + 2 + y.len()) == y
            &&& text.last() == ')'
        }),
{
    reveal_strlit("(");
    reveal_strlit(", ");
    reveal_strlit(")");
    let (text, x, y) = (pair(a, b), decimal(a), decimal(b));
    let middle = 1 + x.len() as int;
    assert(text.subrange(1, middle) =~= x);
    assert(text.subrange(middle + 2, middle + 2 + y.len()) =~= y);
}

} // verus!
