//! Real numbers, carried as the numerals that print them.

use vstd::prelude::*;
use vstd::string::*;

use crate::text::{digit, digit_char, digit_value};

verus! {

/// A real number as its decimal numeral. The library carries such numbers
/// and prints them; it does not reckon with them.
#[derive(Debug)]
pub struct Decimal {
    pub text: String,
}

impl View for Decimal {
    type V = Seq<char>;

    open spec fn view(&self) -> Seq<char> {
        self.text@
    }
}

impl Clone for Decimal {
    fn clone(&self) -> (r: Self)
        ensures
            r@ == self@,
    {
        Decimal { text: self.text.clone() }
    }
}

/// The shortest decimal numeral of `h` hundredths, for `h` up to one hundred.
pub open spec fn hundredths(h: nat) -> Seq<char> {
    if h == 0 {
        seq!['0']
    } else if h >= 100 {
        seq!['1']
    } else if h % 10 == 0 {
        seq!['0', '.', digit(h / 10)]
    } else {
        seq!['0', '.', digit(h / 10), digit(h % 10)]
    }
}

impl Decimal {
    /// The number that `text` writes.
    pub fn new(text: &str) -> (r: Self)
        ensures
            r@ == text@,
    {
        Decimal { text: text.to_owned() }
    }

    /// `h` hundredths, or one where that is more.
    pub fn from_hundredths(h: u64) -> (r: Self)
        ensures
            r@ == hundredths(h as nat),
    {
        let mut text = String::new();
        if h >= 100 {
            text.push('1');
        } else {
            text.push('0');
            if h > 0 {
                text.push('.');
                text.push(digit_char((h / 10) as u8));
                if h % 10 != 0 {
                    text.push(digit_char((h % 10) as u8));
                }
            }
        }
        Decimal { text }
    }
}

/// So many hundredths are written as the fraction that they are: none as zero, a hundred or
/// more as one, and else a zero, a point, and one or two digits that write the hundredths.
pub proof fn law_hundredths(h: nat)
    ensures
        h == 0 ==> hundredths(h) == seq!['0'],
        h >= 100 ==> hundredths(h) == seq!['1'],
        0 < h < 100 ==> {
            let text = hundredths(h);
            &&& text[0] == '0'
            &&& text[1] == '.'
            &&& h % 10 == 0 ==> text.len() == 3 && digit_value(text[2]) * 10 == h
            &&& h % 10 != 0 ==> text.len() == 4 && digit_value(text[2]) * 10 + digit_value(text[3])
                == h
        },
{
}

} // verus!
