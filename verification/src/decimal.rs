//! Decimal text of numbers.

use vstd::arithmetic::div_mod::lemma_div_denominator;
use vstd::arithmetic::power::{lemma_pow0, lemma_pow1, lemma_pow_positive, pow};
use vstd::prelude::*;

verus! {

/// The character of the decimal digit `digit`.
pub open spec fn digit_char(digit: nat) -> char {
    ('0' as int + digit) as char
}

/// The decimal text of `number`, without leading zeros.
pub open spec fn decimal_text(number: nat) -> Seq<char>
    decreases number,
{
    if number < 10 {
        seq![digit_char(number)]
    } else {
        decimal_text(number / 10).push(digit_char(number % 10))
    }
}

/// The text of a number has as many digits as the number needs, and the digit in front of `k`
/// others is the one that counts the `k`-th power of ten.
pub proof fn law_decimal(number: nat)
    ensures
        decimal_text(number).len() > 0,
        number < pow(10, decimal_text(number).len()),
        decimal_text(number).len() > 1 ==> pow(10, (decimal_text(number).len() - 1) as nat)
            <= number,
        forall|i: int|
            0 <= i < decimal_text(number).len() ==> #[trigger] decimal_text(number)[i] as int == 48
                + (number as int / pow(10, (decimal_text(number).len() - 1 - i) as nat)) % 10,
    decreases number,
{
    let text = decimal_text(number);
    if number < 10 {
        lemma_pow0(10);
        lemma_pow1(10);
        assert(text.len() == 1);
        assert(text[0] as int == 48 + number);
        assert(number as int / 1 == number);
    } else {
        law_decimal(number / 10);
        let before = decimal_text(number / 10);
        let length: nat = before.len();
        lemma_pow0(10);
        reveal(pow);
        assert(text =~= before.push(digit_char(number % 10)));
        assert(pow(10, length + 1) == 10 * pow(10, length));
        assert(pow(10, length) == 10 * pow(10, (length - 1) as nat));
        assert(length > 1 ==> pow(10, length) <= number);
        if length == 1 {
            assert(pow(10, 1) == 10) by {
                lemma_pow1(10);
            }
        }
        assert forall|i: int| 0 <= i < text.len() implies #[trigger] text[i] as int == 48 + (
        number as int / pow(10, (text.len() - 1 - i) as nat)) % 10 by {
            if i < length {
                let k: nat = (length - 1 - i) as nat;
                assert(text[i] == before[i]);
                lemma_pow_positive(10, k);
                lemma_div_denominator(number as int, 10, pow(10, k));
                assert(pow(10, k + 1) == 10 * pow(10, k));
                assert((text.len() - 1 - i) as nat == k + 1);
            } else {
                assert(text[i] as int == 48 + number % 10);
                assert(number as int / 1 == number);
            }
        }
    }
}

/// Returns the decimal text of `number`.
pub fn decimal(number: usize) -> (result: String)
    ensures
        result@ == decimal_text(number as nat),
    decreases number,
{
    let mut result: String = if number < 10 {
        String::new()
    } else {
        decimal(number / 10)
    };
    let ghost prefix = result@;
    proof {
        reveal_strlit("0");
        reveal_strlit("1");
        reveal_strlit("2");
        reveal_strlit("3");
        reveal_strlit("4");
        reveal_strlit("5");
        reveal_strlit("6");
        reveal_strlit("7");
        reveal_strlit("8");
        reveal_strlit("9");
    }
    match number % 10 {
        0 => result.append("0"),
        1 => result.append("1"),
        2 => result.append("2"),
        3 => result.append("3"),
        4 => result.append("4"),
        5 => result.append("5"),
        6 => result.append("6"),
        7 => result.append("7"),
        8 => result.append("8"),
        _ => result.append("9"),
    }
    assert(result@ =~= prefix.push(digit_char((number % 10) as nat)));
    assert(result@ =~= decimal_text(number as nat));
    result
}

} // verus!
