//! Names and numbers as text.

use vstd::prelude::*;
use vstd::string::*;

verus! {

/// The text that the bytes of a name are shown as.
///
/// This is what `binrw::NullString` displays for them: the bytes are read
/// as UTF-8, and what is no UTF-8 among them shows as the replacement
/// character.
pub uninterp spec fn spec_name_text(bytes: Seq<u8>) -> Seq<char>;

/// Turns the bytes of a name into text.
///
/// Trusted: the body hands the bytes to `binrw::NullString` and asks for
/// its `Display` text. The contract claims no more than that this text
/// depends on the bytes alone, and calls it `spec_name_text`.
#[verifier::external_body]
pub(crate) fn name_text(bytes: &[u8]) -> (r: String)
    ensures
        r@ == spec_name_text(bytes@),
{
    binrw::NullString(bytes.to_vec()).to_string()
}

/// The character of the decimal digit `d`.
pub open spec fn digit_char(d: nat) -> char {
    (0x30 + d) as u8 as char
}

/// The decimal digits of `n`, most significant first.
pub open spec fn decimal_digits(n: nat) -> Seq<char>
    decreases n,
{
    if n < 10 {
        seq![digit_char(n)]
    } else {
        decimal_digits(n / 10).push(digit_char(n % 10))
    }
}

/// The decimal digit `d` as text.
fn digit(d: usize) -> (r: &'static str)
    requires
        d < 10,
    ensures
        r@ == seq![digit_char(d as nat)],
{
    proof {
        reveal_strlit("0");
        reveal_strlit("1");
        reveal_strlit("2");
        reveal_strlit("3");
        reveal_strlit("4");
        reveal_strlit("5");
        reveal_strlit("6");
        reveal_strlit("7");
        reveal_strlit("8");
        reveal_strlit("9");
    }
    match d {
        0 => "0",
        1 => "1",
        2 => "2",
        3 => "3",
        4 => "4",
        5 => "5",
        6 => "6",
        7 => "7",
        8 => "8",
        _ => "9",
    }
}

/// Writes `n` in decimal digits.
pub fn decimal(n: usize) -> (r: String)
    ensures
        r@ == decimal_digits(n as nat),
    decreases n,
{
    if n < 10 {
        String::from_str(digit(n))
    } else {
        let mut digits = decimal(n / 10);
        digits.append(digit(n % 10));
        digits
    }
}

} // verus!
