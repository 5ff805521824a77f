//! Text from numbers and from strings.

use vstd::prelude::*;

verus! {

/// Appends the character `c` to `text`.
///
/// Calls `String::push`, of which this says what its documentation says: the
/// string is what it was, with the given character appended.
#[verifier::external_body]
pub(crate) fn push_char(text: &mut String, c: char)
    ensures
        final(text)@ == old(text)@.push(c),
{
    text.push(c);
}

/// The text that the `Debug` formatting of the standard library gives for a
/// string: the string between double quotes, with the characters escaped
/// that its `escape_debug` escapes.
pub uninterp spec fn debug_text(text: Seq<char>) -> Seq<char>;

/// The string `text` as its `Debug` formatting writes it.
///
/// Calls `format!` with `{:?}` on a `String`. The result is a function of
/// the characters of the string alone; it is named here, not spelled out.
#[verifier::external_body]
pub(crate) fn debug_string(text: &String) -> (r: String)
    ensures
        r@ == debug_text(text@),
{
    format!("{:?}", text)
}

/// The character of the decimal digit `digit`.
pub open spec fn digit_char(digit: nat) -> char {
    (0x30 + digit) as char
}

/// The decimal digits of `n`, without leading zeros.
pub open spec fn decimal_text(n: nat) -> Seq<char>
    decreases n,
{
    if n < 10 {
        seq![digit_char(n)]
    } else {
        decimal_text(n / 10).push(digit_char(n % 10))
    }
}

/// The characters of `digits`, the last digit first.
pub open spec fn reversed_digits(digits: Seq<u8>) -> Seq<char> {
    Seq::new(digits.len(), |i: int| digit_char(digits[digits.len() - 1 - i] as nat))
}

/// The decimal digits of `n`, without leading zeros.
pub fn decimal(n: u128) -> (text: String)
    ensures
        text@ == decimal_text(n as nat),
{
    let mut digits: Vec<u8> = Vec::new();
    let mut rest: u128 = n;
    assert(decimal_text(rest as nat) + reversed_digits(digits@) =~= decimal_text(n as nat));
    while rest >= 10
        invariant
            decimal_text(n as nat) == decimal_text(rest as nat) + reversed_digits(digits@),
            forall|i: int| 0 <= i < digits@.len() ==> digits@[i] < 10,
        decreases rest,
    {
        let digit: u8 = (rest % 10) as u8;
        let ghost before = digits@;
        digits.push(digit);
        proof {
            let head = decimal_text((rest / 10) as nat);
            assert(decimal_text(rest as nat) == head.push(digit_char(digit as nat)));
            assert(head.push(digit_char(digit as nat)) + reversed_digits(before) =~= head
                + reversed_digits(digits@));
        }
        rest = rest / 10;
    }
    let mut text: String = String::new();
    push_char(&mut text, (0x30u8 + rest as u8) as char);
    let mut i: usize = digits.len();
    assert(text@ =~= decimal_text(rest as nat) + reversed_digits(digits@).subrange(0, 0));
    while i > 0
        invariant
            i <= digits@.len(),
            forall|k: int| 0 <= k < digits@.len() ==> digits@[k] < 10,
            text@ == decimal_text(rest as nat) + reversed_digits(digits@).subrange(
                0,
                digits@.len() - i,
            ),
        decreases i,
    {
        i = i - 1;
        let ghost before = text@;
        push_char(&mut text, (0x30u8 + digits[i]) as char);
        proof {
            let all = reversed_digits(digits@);
            let done = digits@.len() - i - 1;
            assert(all[done] == digit_char(digits@[i as int] as nat));
            assert(all.subrange(0, done + 1) =~= all.subrange(0, done).push(all[done]));
            assert(text@ =~= decimal_text(rest as nat) + all.subrange(0, done + 1));
        }
    }
    assert(reversed_digits(digits@).subrange(0, digits@.len() as int) =~= reversed_digits(digits@));
    text
}

} // verus!
